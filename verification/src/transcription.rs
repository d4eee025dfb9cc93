//! Local voice transcription: where the model is, how it is fetched, and the audio
//! that goes into it.
use vstd::prelude::*;
use vstd::string::*;

use crate::config;
use crate::paths;
use crate::text;

verus! {

/// The models directory below a home directory, or below the current one.
pub open spec fn models_dir_in(home: Option<Seq<char>>) -> Seq<char> {
    let base = config::value_or(home, "."@);
    paths::joined(paths::joined(base, ".toodles"@), "models"@)
}

/// Return the default models directory: `~/.toodles/models`.
pub fn default_models_dir(home: Option<&str>) -> (r: String)
    ensures
        r@ == models_dir_in(text::optional(home)),
{
    let base = match home {
        Some(home) => home,
        None => ".",
    };
    let own = paths::join_path(base, ".toodles");
    paths::join_path(own.as_str(), "models")
}

/// The directory that the model is in.
pub const MODEL_DIR_NAME: &'static str = "parakeet-tdt-0.6b-v3-int8";

/// Where the model is fetched from.
pub const MODEL_URL: &'static str = "https://s3.crispy.fyi/models/parakeet-v3-int8.tar.gz";

/// How large the model is, in megabytes.
pub const MODEL_SIZE_MB: u64 = 478;

/// Where the model is below a models directory.
pub open spec fn model_path_in(models_dir: Seq<char>) -> Seq<char> {
    paths::joined(models_dir, MODEL_DIR_NAME@)
}

/// Where the model is below a models directory.
pub fn model_path(models_dir: &str) -> (r: String)
    ensures
        r@ == model_path_in(models_dir@),
{
    paths::join_path(models_dir, MODEL_DIR_NAME)
}

/// Check whether the Parakeet model is already downloaded: whether there is something
/// at its path, and that is a directory.
pub fn is_model_downloaded(exists: bool, is_dir: bool) -> (r: bool)
    ensures
        r == (exists && is_dir),
{
    exists && is_dir
}

/// What is said where there is no model.
pub fn model_missing(models_dir: &str) -> (r: String)
    ensures
        r@ == "Parakeet model not found at "@ + model_path_in(models_dir@)
            + ". Run `toodles --setup` to download it."@,
{
    let mut r = "Parakeet model not found at ".to_owned();
    let path = model_path(models_dir);
    r.append(path.as_str());
    r.append(". Run `toodles --setup` to download it.");
    r
}

/// What is done about local transcription when the bot starts.
#[derive(Debug, Clone, Copy, PartialEq, Eq, Structural)]
pub enum ModelPlan {
    /// It is not wanted.
    Unused,
    /// Load the model.
    Load,
    /// Download the model, then load it.
    DownloadAndLoad,
}

/// What is done about local transcription when the bot starts.
pub fn model_plan(use_local_transcription: bool, downloaded: bool) -> (r: ModelPlan)
    ensures
        r == (if !use_local_transcription {
            ModelPlan::Unused
        } else if downloaded {
            ModelPlan::Load
        } else {
            ModelPlan::DownloadAndLoad
        }),
{
    if !use_local_transcription {
        ModelPlan::Unused
    } else if downloaded {
        ModelPlan::Load
    } else {
        ModelPlan::DownloadAndLoad
    }
}

/// What to do next about a download.
#[derive(Debug)]
pub enum DownloadStep {
    /// The model is there already.
    AlreadyThere,
    /// Ask this address for the archive.
    Request(String),
    /// Store what comes in this file.
    Store(String),
    /// Give up; where a file or directory is named, remove it first.
    Fail { error: String, remove: Option<String> },
    /// Unpack the archive into a directory that is made anew.
    Unpack { archive: String, into: String },
    /// List the directories in this one.
    List(String),
    /// Put a directory in the place of whatever is at the target, then remove the
    /// leftovers.
    Install { source: String, target: String, leftovers: Vec<String> },
}

/// What to do next about a download, as plain values.
#[verifier::ext_equal]
pub enum Step {
    AlreadyThere,
    Request(Seq<char>),
    Store(Seq<char>),
    Fail { error: Seq<char>, remove: Option<Seq<char>> },
    Unpack { archive: Seq<char>, into: Seq<char> },
    List(Seq<char>),
    Install { source: Seq<char>, target: Seq<char>, leftovers: Seq<Seq<char>> },
}

impl View for DownloadStep {
    type V = Step;

    open spec fn view(&self) -> Step {
        match *self {
            DownloadStep::AlreadyThere => Step::AlreadyThere,
            DownloadStep::Request(url) => Step::Request(url@),
            DownloadStep::Store(path) => Step::Store(path@),
            DownloadStep::Fail { error, remove } => Step::Fail {
                error: error@,
                remove: text::text_of(remove),
            },
            DownloadStep::Unpack { archive, into } => Step::Unpack {
                archive: archive@,
                into: into@,
            },
            DownloadStep::List(path) => Step::List(path@),
            DownloadStep::Install { source, target, leftovers } => Step::Install {
                source: source@,
                target: target@,
                leftovers: text::strings(leftovers@),
            },
        }
    }
}

/// The file that an archive is stored in while it arrives.
pub open spec fn partial_path_in(models_dir: Seq<char>) -> Seq<char> {
    paths::joined(models_dir, MODEL_DIR_NAME@ + ".tar.gz.partial"@)
}

/// The directory that an archive is unpacked into.
pub open spec fn unpack_dir_in(models_dir: Seq<char>) -> Seq<char> {
    paths::joined(models_dir, MODEL_DIR_NAME@ + ".extracting"@)
}

/// What is said of an archive that is not as long as it was announced to be.
pub open spec fn incomplete(expected: nat, actual: nat) -> Seq<char> {
    "Download incomplete: expected "@ + text::decimal(expected) + " bytes, got "@ + text::decimal(
        actual,
    ) + " bytes"@
}

/// What a download begins with: nothing is to be done where the model is there.
pub open spec fn first_step(there: bool) -> Step {
    if there {
        Step::AlreadyThere
    } else {
        Step::Request(MODEL_URL@)
    }
}

/// What follows the answer of the server.
pub open spec fn answered_step(dir: Seq<char>, success: bool, status: Seq<char>) -> Step {
    if success {
        Step::Store(partial_path_in(dir))
    } else {
        Step::Fail { error: "Download failed: HTTP "@ + status, remove: None }
    }
}

/// What follows when an archive has come that was announced to be `expected` long, or
/// 0 where that was not announced.
pub open spec fn stored_step(dir: Seq<char>, expected: nat, actual: nat) -> Step {
    if expected > 0 && actual != expected {
        Step::Fail { error: incomplete(expected, actual), remove: Some(partial_path_in(dir)) }
    } else {
        Step::Unpack { archive: partial_path_in(dir), into: unpack_dir_in(dir) }
    }
}

/// What follows when the archive has been unpacked, or not.
pub open spec fn unpacked_step(dir: Seq<char>, failure: Option<Seq<char>>) -> Step {
    match failure {
        Some(e) => Step::Fail {
            error: "Failed to extract archive: "@ + e,
            remove: Some(unpack_dir_in(dir)),
        },
        None => Step::List(unpack_dir_in(dir)),
    }
}

/// What follows when the directories in the archive are known: one alone is the model,
/// else all of them together are.
pub open spec fn listed_step(dir: Seq<char>, dirs: Seq<Seq<char>>) -> Step {
    if dirs.len() == 1 {
        Step::Install {
            source: dirs[0],
            target: model_path_in(dir),
            leftovers: seq![unpack_dir_in(dir), partial_path_in(dir)],
        }
    } else {
        Step::Install {
            source: unpack_dir_in(dir),
            target: model_path_in(dir),
            leftovers: seq![partial_path_in(dir)],
        }
    }
}

/// A download of the model.
#[derive(Debug)]
pub struct ModelDownload {
    models_dir: String,
    /// How long the archive is, or 0 where that was not announced.
    total_size: u64,
    downloaded: u64,
}

impl ModelDownload {
    /// The directory that the model goes to.
    pub closed spec fn dir(&self) -> Seq<char> {
        self.models_dir@
    }

    /// How long the archive is, or 0 where that was not announced.
    pub closed spec fn expected(&self) -> nat {
        self.total_size as nat
    }

    /// How much has come.
    pub closed spec fn received(&self) -> nat {
        self.downloaded as nat
    }

    /// A download that has not begun.
    pub fn new(models_dir: &str) -> (r: Self)
        ensures
            r.dir() == models_dir@,
            r.expected() == 0,
            r.received() == 0,
    {
        ModelDownload { models_dir: models_dir.to_owned(), total_size: 0, downloaded: 0 }
    }

    /// What is said where the models directory cannot be made.
    pub fn directory_failure(&self) -> (r: String)
        ensures
            r@ == "Failed to create models dir: "@ + self.dir(),
    {
        let mut r = "Failed to create models dir: ".to_owned();
        r.append(self.models_dir.as_str());
        r
    }

    /// The models directory is there; this is what stands at the path of the model.
    pub fn begin(&self, exists: bool, is_dir: bool) -> (r: DownloadStep)
        ensures
            r@ == first_step(exists && is_dir),
    {
        if is_model_downloaded(exists, is_dir) {
            DownloadStep::AlreadyThere
        } else {
            DownloadStep::Request(MODEL_URL.to_owned())
        }
    }

    /// The server has answered.
    pub fn answered(&mut self, success: bool, status: &str, length: Option<u64>) -> (r:
        DownloadStep)
        ensures
            final(self).dir() == old(self).dir(),
            final(self).received() == old(self).received(),
            r@ == answered_step(old(self).dir(), success, status@),
            final(self).expected() == (if !success {
                old(self).expected()
            } else if length is Some {
                length.unwrap() as nat
            } else {
                0
            }),
    {
        if success {
            self.total_size = match length {
                Some(n) => n,
                None => 0,
            };
            DownloadStep::Store(self.partial_path())
        } else {
            let mut error = "Download failed: HTTP ".to_owned();
            error.append(status);
            DownloadStep::Fail { error, remove: None }
        }
    }

    /// A piece of the archive has come; how much there is now.
    pub fn add_chunk(&mut self, length: u64) -> (r: u64)
        requires
            old(self).received() + length <= u64::MAX,
        ensures
            final(self).received() == old(self).received() + length,
            r == final(self).received(),
            final(self).dir() == old(self).dir(),
            final(self).expected() == old(self).expected(),
    {
        self.downloaded = self.downloaded + length;
        self.downloaded
    }

    /// How much has come.
    pub fn downloaded(&self) -> (r: u64)
        ensures
            r == self.received(),
    {
        self.downloaded
    }

    /// How long the archive is, or 0 where that was not announced.
    pub fn total_size(&self) -> (r: u64)
        ensures
            r == self.expected(),
    {
        self.total_size
    }

    /// All that comes has come, and this is how long the file is.
    pub fn stored(&self, actual: u64) -> (r: DownloadStep)
        ensures
            r@ == stored_step(self.dir(), self.expected(), actual as nat),
    {
        if self.total_size > 0 && actual != self.total_size {
            let mut error = "Download incomplete: expected ".to_owned();
            text::push_decimal(&mut error, self.total_size as u128);
            error.append(" bytes, got ");
            text::push_decimal(&mut error, actual as u128);
            error.append(" bytes");
            DownloadStep::Fail { error, remove: Some(self.partial_path()) }
        } else {
            DownloadStep::Unpack { archive: self.partial_path(), into: self.unpack_dir() }
        }
    }

    /// The archive has been unpacked, or not.
    pub fn unpacked(&self, failure: Option<&str>) -> (r: DownloadStep)
        ensures
            r@ == unpacked_step(self.dir(), text::optional(failure)),
    {
        match failure {
            Some(e) => {
                let mut error = "Failed to extract archive: ".to_owned();
                error.append(e);
                DownloadStep::Fail { error, remove: Some(self.unpack_dir()) }
            },
            None => DownloadStep::List(self.unpack_dir()),
        }
    }

    /// These directories were in the archive: one alone is the model, else all of them
    /// together are.
    pub fn listed(&self, dirs: &[String]) -> (r: DownloadStep)
        ensures
            r@ == listed_step(self.dir(), text::strings(dirs@)),
    {
        assert(text::strings(dirs@).len() == dirs@.len());
        let target = model_path(self.models_dir.as_str());
        let mut leftovers: Vec<String> = Vec::new();
        if dirs.len() == 1 {
            leftovers.push(self.unpack_dir());
            leftovers.push(self.partial_path());
            assert(text::strings(leftovers@) =~= seq![
                unpack_dir_in(self.dir()),
                partial_path_in(self.dir()),
            ]);
            DownloadStep::Install { source: dirs[0].clone(), target, leftovers }
        } else {
            leftovers.push(self.partial_path());
            assert(text::strings(leftovers@) =~= seq![partial_path_in(self.dir())]);
            DownloadStep::Install { source: self.unpack_dir(), target, leftovers }
        }
    }

    fn partial_path(&self) -> (r: String)
        ensures
            r@ == partial_path_in(self.dir()),
    {
        let mut name = MODEL_DIR_NAME.to_owned();
        name.append(".tar.gz.partial");
        paths::join_path(self.models_dir.as_str(), name.as_str())
    }

    fn unpack_dir(&self) -> (r: String)
        ensures
            r@ == unpack_dir_in(self.dir()),
    {
        let mut name = MODEL_DIR_NAME.to_owned();
        name.append(".extracting");
        paths::join_path(self.models_dir.as_str(), name.as_str())
    }
}

/// The name of a temporary file of a process, made at a time.
pub open spec fn temp_name(process: nat, time: nat, ending: Seq<char>) -> Seq<char> {
    "toodles_"@ + text::decimal(process) + "_"@ + text::decimal(time) + ending
}

/// The names of the files that audio is converted from and to.
pub fn audio_file_names(process: u32, time: u128) -> (r: (String, String))
    ensures
        r.0@ == temp_name(process as nat, time as nat, ".ogg"@),
        r.1@ == temp_name(process as nat, time as nat, ".raw"@),
{
    let mut stem = "toodles_".to_owned();
    text::push_decimal(&mut stem, process as u128);
    stem.append("_");
    text::push_decimal(&mut stem, time);
    let mut input = stem.clone();
    input.append(".ogg");
    let mut output = stem;
    output.append(".raw");
    (input, output)
}

/// The arguments that make `ffmpeg` convert a file to raw samples: signed, 16 bits,
/// little-endian, 16 kHz, mono.
pub fn ffmpeg_args(input: &str, output: &str) -> (r: Vec<String>)
    ensures
        text::strings(r@) == seq![
            "-y"@,
            "-i"@,
            input@,
            "-f"@,
            "s16le"@,
            "-acodec"@,
            "pcm_s16le"@,
            "-ar"@,
            "16000"@,
            "-ac"@,
            "1"@,
            output@,
        ],
{
    let mut r: Vec<String> = Vec::new();
    r.push("-y".to_owned());
    r.push("-i".to_owned());
    r.push(input.to_owned());
    r.push("-f".to_owned());
    r.push("s16le".to_owned());
    r.push("-acodec".to_owned());
    r.push("pcm_s16le".to_owned());
    r.push("-ar".to_owned());
    r.push("16000".to_owned());
    r.push("-ac".to_owned());
    r.push("1".to_owned());
    r.push(output.to_owned());
    assert(text::strings(r@) =~= seq![
        "-y"@,
        "-i"@,
        input@,
        "-f"@,
        "s16le"@,
        "-acodec"@,
        "pcm_s16le"@,
        "-ar"@,
        "16000"@,
        "-ac"@,
        "1"@,
        output@,
    ]);
    r
}

/// What is said where `ffmpeg` fails.
pub fn ffmpeg_failure(status: &str) -> (r: String)
    ensures
        r@ == "ffmpeg exited with status: "@ + status@,
{
    let mut r = "ffmpeg exited with status: ".to_owned();
    r.append(status);
    r
}

/// The number that two bytes stand for, the low one first.
pub open spec fn sample_value(low: u8, high: u8) -> int {
    let n = low + 256 * high;
    if n >= 32768 {
        n - 65536
    } else {
        n
    }
}

/// The samples in raw audio: two bytes each, and what is left over counts for nothing.
pub open spec fn samples_of(raw: Seq<u8>) -> Seq<int> {
    Seq::new(raw.len() / 2, |i: int| sample_value(raw[2 * i], raw[2 * i + 1]))
}

/// The samples in raw audio. There has to be one.
pub fn decode_samples(raw: &[u8]) -> (r: Result<Vec<i16>, String>)
    ensures
        match r {
            Ok(samples) => raw@.len() >= 2 && samples@.len() == samples_of(raw@).len() && (forall|
                i: int,
            |
                0 <= i < samples@.len() ==> #[trigger] samples@[i] as int == samples_of(raw@)[i]),
            Err(e) => raw@.len() < 2 && e@ == "No audio samples decoded from OGG"@,
        },
{
    let n: usize = raw.len();
    if n < 2 {
        return Err("No audio samples decoded from OGG".to_owned());
    }
    let count: usize = n / 2;
    let mut samples: Vec<i16> = Vec::new();
    let mut i: usize = 0;
    while i < count
        invariant
            i <= count,
            n == raw@.len(),
            count == n / 2,
            samples@.len() == i,
            forall|k: int|
                0 <= k < i ==> #[trigger] samples@[k] as int == samples_of(raw@)[k],
        decreases count - i,
    {
        let low: i32 = raw[2 * i] as i32;
        let high: i32 = raw[2 * i + 1] as i32;
        let value: i32 = low + 256 * high;
        let value: i32 = if value >= 32768 { value - 65536 } else { value };
        samples.push(value as i16);
        i += 1;
    }
    Ok(samples)
}

/// Where speech is transcribed in the cloud.
pub const WHISPER_URL: &'static str = "https://api.openai.com/v1/audio/transcriptions";

/// The model that transcribes speech in the cloud.
pub const WHISPER_MODEL: &'static str = "whisper-1";

/// The name under which a voice message is sent to the cloud.
pub const WHISPER_FILE_NAME: &'static str = "voice.ogg";

/// The type of a voice message.
pub const WHISPER_MIME_TYPE: &'static str = "audio/ogg";

/// The `Authorization` header of a request to the cloud.
pub fn authorization(api_key: &str) -> (r: String)
    ensures
        r@ == "Bearer "@ + api_key@,
{
    let mut r = "Bearer ".to_owned();
    r.append(api_key);
    r
}

/// What is said where the cloud answers with an error.
pub fn whisper_failure(status: &str, body: &str) -> (r: String)
    ensures
        r@ == "Whisper API returned "@ + status@ + ": "@ + body@,
{
    let mut r = "Whisper API returned ".to_owned();
    r.append(status);
    r.append(": ");
    r.append(body);
    r
}

/// A transcript as it is used: without the white space around it.
pub fn clean_transcript(text: &str) -> (r: String)
    ensures
        r@ == text::trimmed(text@),
{
    text::trim(text)
}

/// The samples are the audio: whoever writes each as two bytes, the low one first, has
/// all of it but a byte that is left over.
pub proof fn law_samples_are_the_audio(raw: Seq<u8>, i: int)
    requires
        0 <= i < raw.len() / 2,
    ensures
        -32768 <= samples_of(raw)[i] <= 32767,
        samples_of(raw)[i] % 256 == raw[2 * i],
        (samples_of(raw)[i] / 256) % 256 == raw[2 * i + 1],
{
}

/// The models are in a directory of their own below the home directory, and the model in
/// one of its own below them.
pub proof fn law_model_has_its_place(
    home: Option<&str>,
    dir: String,
    models_dir: &str,
    path: String,
)
    requires
        call_ensures(default_models_dir, (home,), dir),
        call_ensures(model_path, (models_dir,), path),
        home is Some ==> home->0@.len() > 0 && home->0@.last() != '/',
        models_dir@.len() > 0,
        models_dir@.last() != '/',
    ensures
        home is Some ==> dir@ == home->0@ + "/.toodles/models"@,
        home is None ==> dir@ == "./.toodles/models"@,
        path@ == models_dir@ + "/parakeet-tdt-0.6b-v3-int8"@,
{
    reveal_strlit(".");
    reveal_strlit(".toodles");
    reveal_strlit("models");
    reveal_strlit("/.toodles/models");
    reveal_strlit("./.toodles/models");
    reveal_strlit("parakeet-tdt-0.6b-v3-int8");
    reveal_strlit("/parakeet-tdt-0.6b-v3-int8");
    let base = config::value_or(text::optional(home), "."@);
    let own = base.push('/') + ".toodles"@;
    assert(own.last() == ".toodles"@.last());
    assert(own.push('/') + "models"@ =~= base + "/.toodles/models"@);
    assert("."@ + "/.toodles/models"@ =~= "./.toodles/models"@);
    assert(models_dir@.push('/') + "parakeet-tdt-0.6b-v3-int8"@ =~= models_dir@
        + "/parakeet-tdt-0.6b-v3-int8"@);
}

/// Every two bytes of the audio are a sample, in order, and no audio is an error.
pub proof fn law_audio_is_decoded_sample_by_sample(
    raw: &[u8],
    r: Result<Vec<i16>, String>,
    i: int,
)
    requires
        call_ensures(decode_samples, (raw,), r),
    ensures
        r is Ok <==> raw@.len() >= 2,
        r is Ok ==> r->Ok_0@.len() == raw@.len() / 2,
        r is Ok && 0 <= i < raw@.len() / 2 ==> r->Ok_0@[i] as int % 256 == raw@[2 * i] && (
        r->Ok_0@[i] as int / 256) % 256 == raw@[2 * i + 1],
{
    if r is Ok && 0 <= i < raw@.len() / 2 {
        law_samples_are_the_audio(raw@, i);
        assert(r->Ok_0@[i] as int == samples_of(raw@)[i]);
    }
}

/// An archive is taken for whole exactly where it is as long as was announced, or nothing
/// was; one that is not is thrown away, with both lengths told.
pub proof fn law_archive_has_to_be_whole(download: &ModelDownload, actual: u64, r: DownloadStep)
    requires
        call_ensures(ModelDownload::stored, (download, actual), r),
    ensures
        r is Unpack <==> download.expected() == 0 || download.expected() == actual,
        r is Unpack || r is Fail,
        r is Fail ==> r->error@ == "Download incomplete: expected "@ + text::decimal(
            download.expected(),
        ) + " bytes, got "@ + text::decimal(actual as nat) + " bytes"@ && r->remove is Some,
{
    assert(r@ == stored_step(download.dir(), download.expected(), actual as nat));
}

/// One directory alone in the archive is the model; else all of it is. It goes to the place
/// of the model, and nothing else of the archive is kept.
pub proof fn law_what_was_unpacked_becomes_the_model(
    download: &ModelDownload,
    dirs: &[String],
    r: DownloadStep,
    models_dir: &str,
    place: String,
)
    requires
        call_ensures(ModelDownload::listed, (download, dirs), r),
        call_ensures(model_path, (models_dir,), place),
        models_dir@ == download.dir(),
    ensures
        r is Install,
        r->target@ == place@,
        dirs@.len() == 1 ==> r->source@ == dirs@[0]@ && r->leftovers@.len() == 2,
        dirs@.len() != 1 ==> r->source@ == unpack_dir_in(models_dir@) && r->leftovers@.len() == 1,
{
    let step = listed_step(download.dir(), text::strings(dirs@));
    assert(r@ == step);
    assert(text::strings(dirs@).len() == dirs@.len());
    assert(text::strings(r->leftovers@) == step->leftovers);
    assert(text::strings(r->leftovers@).len() == r->leftovers@.len());
    if dirs@.len() == 1 {
        assert(text::strings(dirs@)[0] == dirs@[0]@);
    }
}

/// A download is asked for only where the model is not there; a failure to unpack is told
/// of, and what was unpacked is thrown away.
pub proof fn law_model_is_asked_for_where_it_is_missing(
    download: &ModelDownload,
    exists: bool,
    is_dir: bool,
    r: DownloadStep,
    failure: Option<&str>,
    after: DownloadStep,
)
    requires
        call_ensures(ModelDownload::begin, (download, exists, is_dir), r),
        call_ensures(ModelDownload::unpacked, (download, failure), after),
    ensures
        exists && is_dir ==> r is AlreadyThere,
        !(exists && is_dir) ==> r is Request && r->Request_0@
            == "https://s3.crispy.fyi/models/parakeet-v3-int8.tar.gz"@,
        failure is None ==> after is List && after->List_0@ == unpack_dir_in(download.dir()),
        failure is Some ==> after is Fail && after->error@ == "Failed to extract archive: "@
            + failure->0@ && text::text_of(after->remove) == Some(unpack_dir_in(download.dir())),
{
    assert(r@ == first_step(exists && is_dir));
    assert(after@ == unpacked_step(download.dir(), text::optional(failure)));
}

/// The archive is stored beside the model and unpacked beside it, under names of their own.
pub proof fn law_archive_is_kept_beside_the_model(dir: Seq<char>)
    requires
        dir.len() > 0,
        dir.last() != '/',
    ensures
        partial_path_in(dir) == dir + "/parakeet-tdt-0.6b-v3-int8.tar.gz.partial"@,
        unpack_dir_in(dir) == dir + "/parakeet-tdt-0.6b-v3-int8.extracting"@,
        answered_step(dir, true, Seq::empty()) == Step::Store(partial_path_in(dir)),
        stored_step(dir, 0, 0) == (Step::Unpack {
            archive: partial_path_in(dir),
            into: unpack_dir_in(dir),
        }),
{
    reveal_strlit("parakeet-tdt-0.6b-v3-int8");
    reveal_strlit(".tar.gz.partial");
    reveal_strlit(".extracting");
    reveal_strlit("/parakeet-tdt-0.6b-v3-int8.tar.gz.partial");
    reveal_strlit("/parakeet-tdt-0.6b-v3-int8.extracting");
    let a = "parakeet-tdt-0.6b-v3-int8"@ + ".tar.gz.partial"@;
    let b = "parakeet-tdt-0.6b-v3-int8"@ + ".extracting"@;
    assert(a[0] == 'p' && b[0] == 'p');
    assert(dir.push('/') + a =~= dir + "/parakeet-tdt-0.6b-v3-int8.tar.gz.partial"@);
    assert(dir.push('/') + b =~= dir + "/parakeet-tdt-0.6b-v3-int8.extracting"@);
}

/// A refused download is told of with its status, and leaves nothing to remove.
pub proof fn law_refused_download_is_told_of(dir: Seq<char>, status: Seq<char>)
    ensures
        answered_step(dir, false, status) == (Step::Fail {
            error: "Download failed: HTTP "@ + status,
            remove: None,
        }),
{
}

/// The model is loaded where it is wanted, and fetched first where it is not there.
pub proof fn law_model_is_loaded_where_it_is_wanted(
    wanted: bool,
    exists: bool,
    is_dir: bool,
    there: bool,
    plan: ModelPlan,
)
    requires
        call_ensures(is_model_downloaded, (exists, is_dir), there),
        call_ensures(model_plan, (wanted, there), plan),
    ensures
        there <==> exists && is_dir,
        !wanted ==> plan is Unused,
        wanted && exists && is_dir ==> plan is Load,
        wanted && !(exists && is_dir) ==> plan is DownloadAndLoad,
{
}

/// Speech is converted from one file of the process to another.
pub proof fn law_audio_goes_from_file_to_file(
    process: u32,
    time: u128,
    names: (String, String),
    input: &str,
    output: &str,
    args: Vec<String>,
)
    requires
        call_ensures(audio_file_names, (process, time), names),
        call_ensures(ffmpeg_args, (input, output), args),
    ensures
        names.0@ == "toodles_"@ + text::decimal(process as nat) + "_"@ + text::decimal(time as nat)
            + ".ogg"@,
        names.1@ == "toodles_"@ + text::decimal(process as nat) + "_"@ + text::decimal(time as nat)
            + ".raw"@,
        args@.len() == 12,
        args@[1]@ == "-i"@,
        args@[2]@ == input@,
        args@[7]@ == "-ar"@,
        args@[8]@ == "16000"@,
        args@[11]@ == output@,
{
    let texts = text::strings(args@);
    assert(texts.len() == args@.len());
    assert(texts[1] == args@[1]@ && texts[2] == args@[2]@ && texts[7] == args@[7]@ && texts[8]
        == args@[8]@ && texts[11] == args@[11]@);
}

/// A transcript is used without the white space around it, and the cloud is asked with the
/// key.
pub proof fn law_transcript_is_used_without_white_space(
    text: &str,
    r: String,
    front: Seq<char>,
    words: Seq<char>,
    back: Seq<char>,
    key: &str,
    header: String,
)
    requires
        call_ensures(clean_transcript, (text,), r),
        call_ensures(authorization, (key,), header),
        text@ == front + words + back,
        text::is_blank(front),
        text::is_blank(back),
        words.len() > 0,
        !text::is_space(words[0]),
        !text::is_space(words.last()),
    ensures
        r@ == words,
        header@ == "Bearer "@ + key@,
{
    text::law_trimming_takes_white_space_alone(front, words, back);
}

/// An archive that the server sends is stored, and its length kept in mind where it is
/// announced; a refusal is the end.
pub proof fn law_answer_of_the_server(
    download: &mut ModelDownload,
    success: bool,
    status: &str,
    length: Option<u64>,
    r: DownloadStep,
)
    requires
        call_ensures(ModelDownload::answered, (download, success, status, length), r),
    ensures
        success ==> r is Store && r->Store_0@ == partial_path_in(old(download).dir()),
        success && length is Some ==> final(download).expected() == length->0,
        success && length is None ==> final(download).expected() == 0,
        !success ==> r is Fail && r->error@ == "Download failed: HTTP "@ + status@ && r->remove
            is None,
        final(download).dir() == old(download).dir(),
        final(download).received() == old(download).received(),
{
    assert(r@ == answered_step(old(download).dir(), success, status@));
}

/// Every piece that comes counts with its length.
pub proof fn law_pieces_add_up(download: &mut ModelDownload, length: u64, r: u64)
    requires
        call_ensures(ModelDownload::add_chunk, (download, length), r),
    ensures
        final(download).received() == old(download).received() + length,
        r == final(download).received(),
{
}

} // verus!
