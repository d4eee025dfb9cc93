//! Messages of users: who may write, and what a message becomes before it is
//! forwarded to the agent.
use vstd::prelude::*;
use vstd::string::*;

use crate::aggregator::MessagePart;
use crate::config;
use crate::config::Config;
use crate::paths;
use crate::text;

verus! {

/// What a user is told who may not use the bot.
pub const NOT_AUTHORISED_TEXT: &'static str = "⛔ You are not authorised to use this bot.";

/// How long the parts of a message are waited for, in milliseconds.
pub const AGGREGATION_WINDOW_MS: u64 = 1500;

/// What is done about the sender of a message.
#[derive(Debug)]
pub enum Admission {
    /// The sender is unknown: the message is ignored.
    Ignore,
    /// The sender may not use the bot, and is told so.
    Refuse(String),
    /// The sender may use the bot.
    Admit,
}

/// Whether `r` is what is done about a sender.
pub open spec fn admitted(r: Admission, config: Config, user_id: Option<u64>) -> bool {
    match user_id {
        None => r is Ignore,
        Some(id) => if config.allows(id) {
            r is Admit
        } else {
            r matches Admission::Refuse(t) && t@ == NOT_AUTHORISED_TEXT@
        },
    }
}

/// What is done about the sender of a message.
pub fn check_sender(config: &Config, user_id: Option<u64>) -> (r: Admission)
    ensures
        admitted(r, *config, user_id),
{
    match user_id {
        None => Admission::Ignore,
        Some(id) => {
            if config.is_user_allowed(id) {
                Admission::Admit
            } else {
                Admission::Refuse(NOT_AUTHORISED_TEXT.to_owned())
            }
        },
    }
}

/// What is done about a text message.
#[derive(Debug)]
pub enum TextStep {
    Ignore,
    Refuse(String),
    /// Push this part into the aggregation buffer.
    Push(MessagePart),
}

/// Whether a text is a command.
pub open spec fn is_command(t: Seq<char>) -> bool {
    t.len() > 0 && t[0] == '/'
}

/// Handle a plain text message: commands are handled elsewhere.
pub fn handle_text(config: &Config, user_id: Option<u64>, message: Option<&str>) -> (r: TextStep)
    ensures
        match user_id {
            None => r is Ignore,
            Some(id) => if !config.allows(id) {
                r matches TextStep::Refuse(t) && t@ == NOT_AUTHORISED_TEXT@
            } else {
                match text::optional(message) {
                    Some(t) if !is_command(t) => r matches TextStep::Push(part) && part.text@ == t,
                    _ => r is Ignore,
                }
            },
        },
{
    match check_sender(config, user_id) {
        Admission::Ignore => TextStep::Ignore,
        Admission::Refuse(t) => TextStep::Refuse(t),
        Admission::Admit => match message {
            Some(t) => {
                let v = text::chars_of(t);
                if v.len() > 0 && v[0] == '/' {
                    TextStep::Ignore
                } else {
                    TextStep::Push(MessagePart { text: t.to_owned() })
                }
            },
            None => TextStep::Ignore,
        },
    }
}

/// The directory for files that users send: one that the agent may read.
pub open spec fn temp_dir_in(home: Option<Seq<char>>) -> Seq<char> {
    paths::joined(config::value_or(home, "/tmp"@), ".gemini/tmp/toodles"@)
}

/// The directory for files that users send.
pub fn temp_dir(home: Option<&str>) -> (r: String)
    ensures
        r@ == temp_dir_in(text::optional(home)),
{
    let base = match home {
        Some(home) => home,
        None => "/tmp",
    };
    paths::join_path(base, ".gemini/tmp/toodles")
}

/// A file that a user sent, and what is forwarded of it.
#[derive(Debug)]
pub struct Upload {
    /// Where the file is stored.
    pub path: String,
    /// The part to push into the aggregation buffer.
    pub part: MessagePart,
}

/// What is done about a document.
#[derive(Debug)]
pub enum DocumentStep {
    Ignore,
    Refuse(String),
    /// Download the file, then push the part.
    Download(Upload),
}

/// The name of a document.
pub open spec fn document_name(file_name: Option<Seq<char>>) -> Seq<char> {
    config::value_or(file_name, "unknown_file"@)
}

/// Where a document is stored.
pub open spec fn document_path(
    home: Option<Seq<char>>,
    unique_id: Seq<char>,
    name: Seq<char>,
) -> Seq<char> {
    paths::joined(temp_dir_in(home), "toodles_"@ + unique_id + "_"@ + name)
}

/// The prompt for a document.
pub open spec fn document_prompt(
    name: Seq<char>,
    path: Seq<char>,
    caption: Option<Seq<char>>,
) -> Seq<char> {
    "User sent a file: "@ + name + " (saved at "@ + path + ")\n\n"@ + config::value_or(
        caption,
        "No caption provided. Describe the file contents and ask what I should do."@,
    )
}

/// A document as Telegram describes it.
#[derive(Debug)]
pub struct Document {
    pub unique_id: String,
    pub file_name: Option<String>,
}

/// Handle a document message: where the file goes, and the prompt with its path and
/// caption.
pub fn handle_document(
    config: &Config,
    user_id: Option<u64>,
    document: Option<&Document>,
    caption: Option<&str>,
    home: Option<&str>,
) -> (r: DocumentStep)
    ensures
        match user_id {
            None => r is Ignore,
            Some(id) => if !config.allows(id) {
                r matches DocumentStep::Refuse(t) && t@ == NOT_AUTHORISED_TEXT@
            } else {
                match document {
                    None => r is Ignore,
                    Some(d) => r matches DocumentStep::Download(upload) && upload.path@
                        == document_path(
                        text::optional(home),
                        d.unique_id@,
                        document_name(text::text_of(d.file_name)),
                    ) && upload.part.text@ == document_prompt(
                        document_name(text::text_of(d.file_name)),
                        upload.path@,
                        text::optional(caption),
                    ),
                }
            },
        },
{
    match check_sender(config, user_id) {
        Admission::Ignore => DocumentStep::Ignore,
        Admission::Refuse(t) => DocumentStep::Refuse(t),
        Admission::Admit => match document {
            None => DocumentStep::Ignore,
            Some(d) => {
                let name = match &d.file_name {
                    Some(name) => name.clone(),
                    None => "unknown_file".to_owned(),
                };
                let mut file = "toodles_".to_owned();
                file.append(d.unique_id.as_str());
                file.append("_");
                file.append(name.as_str());
                let dir = temp_dir(home);
                let path = paths::join_path(dir.as_str(), file.as_str());
                let mut prompt = "User sent a file: ".to_owned();
                prompt.append(name.as_str());
                prompt.append(" (saved at ");
                prompt.append(path.as_str());
                prompt.append(")\n\n");
                prompt.append(
                    match caption {
                        Some(caption) => caption,
                        None => "No caption provided. Describe the file contents and ask what I should do.",
                    },
                );
                DocumentStep::Download(Upload { path, part: MessagePart { text: prompt } })
            },
        },
    }
}

/// What is done about a photo.
#[derive(Debug)]
pub enum PhotoStep {
    Ignore,
    Refuse(String),
    /// Download the size at this place.
    Download(usize),
}

/// Handle a photo message: the largest size is downloaded, which comes last.
pub fn handle_photo(config: &Config, user_id: Option<u64>, sizes: usize) -> (r: PhotoStep)
    ensures
        match user_id {
            None => r is Ignore,
            Some(id) => if !config.allows(id) {
                r matches PhotoStep::Refuse(t) && t@ == NOT_AUTHORISED_TEXT@
            } else if sizes == 0 {
                r is Ignore
            } else {
                r == PhotoStep::Download((sizes - 1) as usize)
            },
        },
{
    match check_sender(config, user_id) {
        Admission::Ignore => PhotoStep::Ignore,
        Admission::Refuse(t) => PhotoStep::Refuse(t),
        Admission::Admit => {
            if sizes == 0 {
                PhotoStep::Ignore
            } else {
                PhotoStep::Download(sizes - 1)
            }
        },
    }
}

/// What stands behind the last dot of a path; all of it where there is none.
pub open spec fn extension(path: Seq<char>) -> Seq<char>
    decreases path.len(),
{
    if path.len() == 0 || path.last() == '.' {
        Seq::empty()
    } else {
        extension(path.drop_last()).push(path.last())
    }
}

/// What stands behind the last dot of a path.
fn extension_of(path: &str) -> (r: String)
    ensures
        r@ == extension(path@),
{
    let v = text::chars_of(path);
    let n: usize = v.len();
    let mut i: usize = n;
    assert(v@.take(n as int) =~= v@);
    assert(extension(v@) + v@.skip(n as int) =~= extension(v@));
    while i > 0 && v[i - 1] != '.'
        invariant
            i <= n,
            n == v@.len(),
            extension(v@) == extension(v@.take(i as int)) + v@.skip(i as int),
        decreases i,
    {
        let ghost head = v@.take(i as int);
        assert(head.drop_last() =~= v@.take(i - 1));
        assert(head.last() == v@[i - 1]);
        assert(v@.skip(i - 1) =~= seq![v@[i - 1]] + v@.skip(i as int));
        assert(extension(head.drop_last()).push(v@[i - 1]) + v@.skip(i as int) =~= extension(
            head.drop_last(),
        ) + v@.skip(i - 1));
        i -= 1;
    }
    assert(extension(v@.take(i as int)) =~= Seq::empty());
    let rest = text::sub_chars(v.as_slice(), i, n);
    assert(rest@ =~= extension(v@));
    text::string_of(rest.as_slice())
}

/// Where a photo is stored.
pub open spec fn photo_path(
    home: Option<Seq<char>>,
    message_id: int,
    remote_path: Seq<char>,
) -> Seq<char> {
    paths::joined(
        temp_dir_in(home),
        "toodles_photo_"@ + text::signed_decimal(message_id) + "."@ + extension(remote_path),
    )
}

/// Where a photo that was downloaded from `remote_path` goes, and its prompt.
pub fn photo_upload(
    home: Option<&str>,
    message_id: i32,
    remote_path: &str,
    caption: Option<&str>,
) -> (r: Upload)
    ensures
        r.path@ == photo_path(text::optional(home), message_id as int, remote_path@),
        r.part.text@ == config::value_or(text::optional(caption), "What's in this image?"@),
{
    let mut file = "toodles_photo_".to_owned();
    text::push_signed(&mut file, message_id as i64);
    file.append(".");
    let ext = extension_of(remote_path);
    file.append(ext.as_str());
    let dir = temp_dir(home);
    let path = paths::join_path(dir.as_str(), file.as_str());
    let prompt = match caption {
        Some(caption) => caption.to_owned(),
        None => "What's in this image?".to_owned(),
    };
    Upload { path, part: MessagePart { text: prompt } }
}

/// A user who is not on a list that names others gets nothing but a refusal.
pub proof fn law_stranger_is_refused(r: Admission, config: Config, user_id: u64)
    requires
        config.allowed_user_ids@.len() > 0,
        !config.allowed_user_ids@.contains(user_id),
        admitted(r, config, Some(user_id)),
    ensures
        r matches Admission::Refuse(t) && t@ == NOT_AUTHORISED_TEXT@,
{
}

/// Without a list everybody may use the bot.
pub proof fn law_empty_list_admits_everybody(r: Admission, config: Config, user_id: u64)
    requires
        config.allowed_user_ids@.len() == 0,
        admitted(r, config, Some(user_id)),
    ensures
        r is Admit,
{
}

/// Whether a configuration lets a user in: any user where it lists none.
pub open spec fn lets_in(config: Config, user_id: Option<u64>) -> bool {
    user_id is Some && (config.allowed_user_ids@.len() == 0 || config.allowed_user_ids@.contains(
        user_id->0,
    ))
}

/// A text of a user who is let in is passed on as it is, unless it begins with a slash.
pub proof fn law_text_is_passed_on_as_it_is(
    config: &Config,
    user_id: Option<u64>,
    message: Option<&str>,
    r: TextStep,
)
    requires
        call_ensures(handle_text, (config, user_id, message), r),
    ensures
        user_id is None ==> r is Ignore,
        user_id is Some && !lets_in(*config, user_id) ==> r is Refuse && r->Refuse_0@
            == "⛔ You are not authorised to use this bot."@,
        lets_in(*config, user_id) && message is None ==> r is Ignore,
        lets_in(*config, user_id) && message is Some && message->0@.len() > 0 && message->0@[0]
            == '/' ==> r is Ignore,
        lets_in(*config, user_id) && message is Some && (message->0@.len() == 0 || message->0@[0]
            != '/') ==> r is Push && r->Push_0.text@ == message->0@,
{
}

proof fn lemma_upload_place(home: Option<Seq<char>>, file: Seq<char>)
    requires
        file.len() > 0,
        file[0] != '/',
        home is Some ==> home->0.len() > 0 && home->0.last() != '/',
    ensures
        paths::joined(temp_dir_in(home), file) == config::value_or(home, "/tmp"@)
            + "/.gemini/tmp/toodles/"@ + file,
{
    reveal_strlit("/tmp");
    reveal_strlit(".gemini/tmp/toodles");
    reveal_strlit("/.gemini/tmp/toodles/");
    let base = config::value_or(home, "/tmp"@);
    let dir = base.push('/') + ".gemini/tmp/toodles"@;
    assert(temp_dir_in(home) == dir);
    assert(dir.last() == ".gemini/tmp/toodles"@.last());
    assert("/.gemini/tmp/toodles/"@ =~= seq!['/'] + ".gemini/tmp/toodles"@ + seq!['/']);
    assert(dir.push('/') + file =~= base + "/.gemini/tmp/toodles/"@ + file);
}

/// A document is stored under the home directory, in a file that carries its number and
/// its name, and the prompt gives its name, its place and its caption.
pub proof fn law_document_is_stored_and_asked_about(
    config: &Config,
    user_id: Option<u64>,
    document: Option<&Document>,
    caption: Option<&str>,
    home: Option<&str>,
    r: DocumentStep,
)
    requires
        call_ensures(handle_document, (config, user_id, document, caption, home), r),
        home is Some ==> home->0@.len() > 0 && home->0@.last() != '/',
    ensures
        ({
            let may = lets_in(*config, user_id);
            let d = *document->0;
            let name = if d.file_name is Some { d.file_name->0@ } else { "unknown_file"@ };
            let place = if home is Some { home->0@ } else { "/tmp"@ };
            let asked = if caption is Some {
                caption->0@
            } else {
                "No caption provided. Describe the file contents and ask what I should do."@
            };
            &&& user_id is None ==> r is Ignore
            &&& user_id is Some && !may ==> r is Refuse
            &&& may && document is None ==> r is Ignore
            &&& may && document is Some ==> {
                let upload = r->Download_0;
                &&& r is Download
                &&& upload.path@ == place + "/.gemini/tmp/toodles/"@ + ("toodles_"@ + d.unique_id@
                    + "_"@ + name)
                &&& upload.part.text@ == "User sent a file: "@ + name + " (saved at "@
                    + upload.path@ + ")\n\n"@ + asked
            }
        }),
{
    reveal_strlit("toodles_");
    if lets_in(*config, user_id) && document is Some {
        let d = *document->0;
        let name = document_name(text::text_of(d.file_name));
        let file = "toodles_"@ + d.unique_id@ + "_"@ + name;
        assert(file[0] == 't');
        lemma_upload_place(text::optional(home), file);
    }
}

/// Of the sizes of a photo the last is taken, which is the largest.
pub proof fn law_largest_size_is_taken(
    config: &Config,
    user_id: Option<u64>,
    sizes: usize,
    r: PhotoStep,
)
    requires
        call_ensures(handle_photo, (config, user_id, sizes), r),
    ensures
        user_id is None ==> r is Ignore,
        user_id is Some && !lets_in(*config, user_id) ==> r is Refuse,
        lets_in(*config, user_id) && sizes == 0 ==> r is Ignore,
        lets_in(*config, user_id) && sizes > 0 ==> r is Download && r->Download_0 == sizes - 1,
{
}

proof fn lemma_extension(a: Seq<char>, b: Seq<char>)
    requires
        !b.contains('.'),
    ensures
        extension(b) == b,
        extension(a + seq!['.'] + b) == b,
    decreases b.len(),
{
    let whole = a + seq!['.'] + b;
    if b.len() == 0 {
        assert(whole.last() == '.');
        assert(extension(b) =~= b);
        assert(extension(whole) =~= b);
    } else {
        let c = b.drop_last();
        assert forall|i: int| 0 <= i < c.len() implies c[i] != '.' by {
            assert(b[i] == c[i]);
        }
        lemma_extension(a, c);
        assert(b.last() != '.');
        assert(whole.last() == b.last());
        assert(whole.drop_last() =~= a + seq!['.'] + c);
        assert(c.push(b.last()) =~= b);
    }
}

/// A photo is stored under the home directory, in a file that carries the number of its
/// message and ends as the file does that it came from; its caption is the prompt.
pub proof fn law_photo_is_stored_and_asked_about(
    home: Option<&str>,
    message_id: i32,
    remote: &str,
    caption: Option<&str>,
    r: Upload,
    a: Seq<char>,
    b: Seq<char>,
)
    requires
        call_ensures(photo_upload, (home, message_id, remote, caption), r),
        home is Some ==> home->0@.len() > 0 && home->0@.last() != '/',
        remote@ == a + seq!['.'] + b || remote@ == b,
        !b.contains('.'),
    ensures
        r.path@ == (if home is Some { home->0@ } else { "/tmp"@ }) + "/.gemini/tmp/toodles/"@ + (
        "toodles_photo_"@ + text::signed_decimal(message_id as int) + "."@ + b),
        caption is Some ==> r.part.text@ == caption->0@,
        caption is None ==> r.part.text@ == "What's in this image?"@,
{
    reveal_strlit("toodles_photo_");
    lemma_extension(a, b);
    let file = "toodles_photo_"@ + text::signed_decimal(message_id as int) + "."@ + b;
    assert(file[0] == 't');
    lemma_upload_place(text::optional(home), file);
}

/// A sender is let in, refused or, where it is not known who they are, ignored.
pub proof fn law_sender_is_let_in_or_not(config: &Config, user_id: Option<u64>, r: Admission)
    requires
        call_ensures(check_sender, (config, user_id), r),
    ensures
        r is Admit <==> lets_in(*config, user_id),
        r is Ignore <==> user_id is None,
        r is Refuse ==> r->Refuse_0@ == "⛔ You are not authorised to use this bot."@,
{
}

} // verus!
