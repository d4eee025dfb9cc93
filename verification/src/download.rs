//! What a download of the model does to the disk, from beginning to end.
use vstd::prelude::*;

use crate::paths;
use crate::transcription;
use crate::transcription::Step;

verus! {

/// What can stand at a path.
pub enum Entry {
    File,
    Directory,
}

/// Whether a path is that of a directory or of something in it.
pub open spec fn is_within(path: Seq<char>, dir: Seq<char>) -> bool {
    ||| path == dir
    ||| path.len() > dir.len() && path.take(dir.len() as int) == dir && path[dir.len() as int]
        == '/'
}

/// What is left on a disk after something has been removed with all that is in it.
pub open spec fn without(disk: Map<Seq<char>, Entry>, path: Seq<char>) -> Map<Seq<char>, Entry> {
    Map::new(|p: Seq<char>| disk.contains_key(p) && !is_within(p, path), |p: Seq<char>| disk[p])
}

/// The disk after several things have been removed, one after the other.
pub open spec fn without_all(
    disk: Map<Seq<char>, Entry>,
    removed: Seq<Seq<char>>,
) -> Map<Seq<char>, Entry>
    decreases removed.len(),
{
    if removed.len() == 0 {
        disk
    } else {
        without(without_all(disk, removed.drop_last()), removed.last())
    }
}

/// The disk after something else has come into the place of a directory and of all that
/// is in it.
pub open spec fn replaced(
    disk: Map<Seq<char>, Entry>,
    dir: Seq<char>,
    content: Map<Seq<char>, Entry>,
) -> Map<Seq<char>, Entry> {
    Map::new(
        |p: Seq<char>|
            if is_within(p, dir) {
                content.contains_key(p)
            } else {
                disk.contains_key(p)
            },
        |p: Seq<char>|
            if is_within(p, dir) {
                content[p]
            } else {
                disk[p]
            },
    )
}

/// The disk after something has been put in the place of whatever was at the target,
/// with all that is in it.
pub open spec fn moved(
    disk: Map<Seq<char>, Entry>,
    source: Seq<char>,
    target: Seq<char>,
) -> Map<Seq<char>, Entry> {
    Map::new(
        |p: Seq<char>|
            if is_within(p, target) {
                disk.contains_key(source + p.skip(target.len() as int))
            } else {
                disk.contains_key(p) && !is_within(p, source)
            },
        |p: Seq<char>|
            if is_within(p, target) {
                disk[source + p.skip(target.len() as int)]
            } else {
                disk[p]
            },
    )
}

/// What comes of putting the model into its place.
pub enum Installation {
    Done,
    /// It could not be put there, and what was there may be gone.
    Failed { kept: bool },
}

/// What the outside does during a download.
pub struct Outside {
    /// Whether the models directory can be made.
    pub directory: bool,
    /// The answer of the server, if there is one: whether it is a success, its status,
    /// and how long the archive is announced to be.
    pub answer: Option<(bool, Seq<char>, Option<nat>)>,
    /// Whether the file to store in could be made, and all that came be stored in it.
    pub created: bool,
    pub stored: bool,
    /// How much came.
    pub length: nat,
    /// Whether the directory to unpack into could be made anew, and the archive be read.
    pub room: bool,
    /// Why unpacking failed, if it did.
    pub failure: Option<Seq<char>>,
    /// What is at the directory to unpack into after that, and in it, by path. Nothing is
    /// unpacked outside of it.
    pub content: Map<Seq<char>, Entry>,
    /// The directories that were found there, if they could be listed.
    pub dirs: Option<Seq<Seq<char>>>,
    /// What came of putting the model into its place.
    pub installation: Installation,
}

/// What a download comes to.
pub struct Outcome {
    /// Whether it succeeded.
    pub success: bool,
    /// Whether anything was asked of the server.
    pub requested: bool,
    /// What is on the disk.
    pub disk: Map<Seq<char>, Entry>,
}

/// Whether the model is on a disk.
pub open spec fn has_model(disk: Map<Seq<char>, Entry>, dir: Seq<char>) -> bool {
    disk.contains_key(transcription::model_path_in(dir))
        && disk[transcription::model_path_in(dir)] is Directory
}

/// A failure after something was asked of the server.
pub open spec fn failed(disk: Map<Seq<char>, Entry>) -> Outcome {
    Outcome { success: false, requested: true, disk }
}

/// A failure for which a step asks.
pub open spec fn failed_step(disk: Map<Seq<char>, Entry>, step: Step) -> Outcome {
    match step {
        Step::Fail { remove: Some(path), .. } => failed(without(disk, path)),
        _ => failed(disk),
    }
}

/// A download into a models directory, from beginning to end.
pub open spec fn download(dir: Seq<char>, disk: Map<Seq<char>, Entry>, o: Outside) -> Outcome {
    if !o.directory {
        Outcome { success: false, requested: false, disk }
    } else {
        match transcription::first_step(has_model(disk, dir)) {
            Step::Request(_) => match o.answer {
                None => failed(disk),
                Some((success, status, length)) => match transcription::answered_step(
                    dir,
                    success,
                    status,
                ) {
                    Step::Store(path) => if !o.created {
                        failed(disk)
                    } else {
                        after_store(
                            dir,
                            disk.insert(path, Entry::File),
                            match length {
                                Some(n) => n,
                                None => 0,
                            },
                            o,
                        )
                    },
                    step => failed_step(disk, step),
                },
            },
            _ => Outcome { success: true, requested: false, disk },
        }
    }
}

/// The rest of a download, when the archive was stored or partly stored.
pub open spec fn after_store(
    dir: Seq<char>,
    disk: Map<Seq<char>, Entry>,
    expected: nat,
    o: Outside,
) -> Outcome {
    if !o.stored {
        failed(disk)
    } else {
        match transcription::stored_step(dir, expected, o.length) {
            Step::Unpack { into, .. } => if !o.room {
                failed(replaced(disk, into, o.content))
            } else {
                after_unpacking(dir, replaced(disk, into, o.content), o)
            },
            step => failed_step(disk, step),
        }
    }
}

/// The rest of a download, when the archive was unpacked or partly unpacked.
pub open spec fn after_unpacking(
    dir: Seq<char>,
    disk: Map<Seq<char>, Entry>,
    o: Outside,
) -> Outcome {
    match transcription::unpacked_step(dir, o.failure) {
        Step::List(_) => match o.dirs {
            None => failed(disk),
            Some(dirs) => match transcription::listed_step(dir, dirs) {
                Step::Install { source, target, leftovers } => match o.installation {
                    Installation::Done => Outcome {
                        success: true,
                        requested: true,
                        disk: without_all(moved(disk, source, target), leftovers),
                    },
                    Installation::Failed { kept } => failed(
                        if kept {
                            disk
                        } else {
                            without(disk, target)
                        },
                    ),
                },
                step => failed_step(disk, step),
            },
        },
        step => failed_step(disk, step),
    }
}

/// Whether the outside is true to its word: what is unpacked into is a directory, and so
/// are the directories that were found in it.
pub open spec fn is_truthful(dir: Seq<char>, o: Outside) -> bool {
    let unpack = transcription::unpack_dir_in(dir);
    &&& o.room ==> o.content.contains_key(unpack) && o.content[unpack] is Directory
    &&& o.dirs matches Some(dirs) ==> forall|i: int|
        0 <= i < dirs.len() ==> {
            &&& is_within(#[trigger] dirs[i], unpack)
            &&& o.content.contains_key(dirs[i])
            &&& o.content[dirs[i]] is Directory
        }
}

/// Whether the server sent an archive, and as much of it as it announced.
pub open spec fn came_whole(o: Outside) -> bool {
    match o.answer {
        Some((success, _, length)) => success && (length matches Some(n) ==> n == 0 || n
            == o.length),
        None => false,
    }
}

/// Whether the model path holds the same on two disks, with all that is in it.
pub open spec fn same_model(
    a: Map<Seq<char>, Entry>,
    b: Map<Seq<char>, Entry>,
    dir: Seq<char>,
) -> bool {
    forall|p: Seq<char>|
        is_within(p, transcription::model_path_in(dir)) ==> #[trigger] a.get(p) == b.get(p)
}

proof fn lemma_beside(p: Seq<char>, target: Seq<char>, ending: Seq<char>)
    requires
        ending.len() > 0,
        ending[0] != '/',
        is_within(p, target),
    ensures
        !is_within(p, target + ending),
{
    if is_within(p, target + ending) {
        let q = target + ending;
        assert(p.len() >= q.len());
        assert(p.take(q.len() as int) =~= q) by {
            if p == q {
                assert(p.take(q.len() as int) =~= p);
            }
        }
        assert(p[target.len() as int] == p.take(q.len() as int)[target.len() as int]);
        assert(q[target.len() as int] == ending[0]);
    }
}

proof fn lemma_joined_ending(dir: Seq<char>, name: Seq<char>, ending: Seq<char>)
    requires
        name.len() > 0,
    ensures
        paths::joined(dir, name + ending) == paths::joined(dir, name) + ending,
{
    assert((name + ending)[0] == name[0]);
    assert(paths::joined(dir, name + ending) =~= paths::joined(dir, name) + ending);
}

/// The files of a download are neither the model nor in it.
proof fn lemma_model_is_apart(dir: Seq<char>, p: Seq<char>)
    requires
        is_within(p, transcription::model_path_in(dir)),
    ensures
        !is_within(p, transcription::partial_path_in(dir)),
        !is_within(p, transcription::unpack_dir_in(dir)),
{
    let name = transcription::MODEL_DIR_NAME@;
    assert(name.len() > 0) by {
        reveal_strlit("parakeet-tdt-0.6b-v3-int8");
    }
    reveal_strlit(".tar.gz.partial");
    reveal_strlit(".extracting");
    let target = transcription::model_path_in(dir);
    lemma_joined_ending(dir, name, ".tar.gz.partial"@);
    lemma_joined_ending(dir, name, ".extracting"@);
    lemma_beside(p, target, ".tar.gz.partial"@);
    lemma_beside(p, target, ".extracting"@);
}

proof fn lemma_all_apart(dir: Seq<char>)
    ensures
        forall|p: Seq<char>| #[trigger]
            is_within(p, transcription::model_path_in(dir)) ==> !is_within(
                p,
                transcription::partial_path_in(dir),
            ) && !is_within(p, transcription::unpack_dir_in(dir)),
{
    assert forall|p: Seq<char>| #[trigger]
        is_within(p, transcription::model_path_in(dir)) implies !is_within(
        p,
        transcription::partial_path_in(dir),
    ) && !is_within(p, transcription::unpack_dir_in(dir)) by {
        lemma_model_is_apart(dir, p);
    }
}

proof fn lemma_installed(dir: Seq<char>, disk: Map<Seq<char>, Entry>, dirs: Seq<Seq<char>>)
    requires
        disk.contains_key(transcription::unpack_dir_in(dir)),
        disk[transcription::unpack_dir_in(dir)] is Directory,
        dirs.len() == 1 ==> disk.contains_key(dirs[0]) && disk[dirs[0]] is Directory,
    ensures
        ({
            let step = transcription::listed_step(dir, dirs);
            has_model(
                without_all(moved(disk, step->source, step->target), step->leftovers),
                dir,
            )
        }),
{
    let target = transcription::model_path_in(dir);
    let step = transcription::listed_step(dir, dirs);
    let m = moved(disk, step->source, target);
    lemma_model_is_apart(dir, target);
    assert(step->source + target.skip(target.len() as int) =~= step->source);
    assert(m.contains_key(target) && m[target] is Directory);
    let leftovers = step->leftovers;
    if dirs.len() == 1 {
        assert(leftovers.drop_last() =~= seq![transcription::unpack_dir_in(dir)]);
        assert(leftovers.drop_last().drop_last() =~= Seq::empty());
        reveal_with_fuel(without_all, 3);
    } else {
        assert(leftovers.drop_last() =~= Seq::empty());
        reveal_with_fuel(without_all, 2);
    }
}

/// A download that succeeds leaves the model in its place. Where the model is there
/// already, it succeeds, asks for nothing and changes nothing. An archive of the wrong
/// length never becomes the model.
pub proof fn law_success_means_that_the_model_is_there(
    dir: Seq<char>,
    disk: Map<Seq<char>, Entry>,
    o: Outside,
)
    requires
        is_truthful(dir, o),
    ensures
        download(dir, disk, o).success ==> has_model(download(dir, disk, o).disk, dir),
        o.directory ==> download(dir, disk, o).requested == !has_model(disk, dir),
        o.directory && has_model(disk, dir) ==> download(dir, disk, o).success && download(
            dir,
            disk,
            o,
        ).disk == disk,
        download(dir, disk, o).success && !has_model(disk, dir) ==> came_whole(o),
{
    let unpack = transcription::unpack_dir_in(dir);
    let stored = disk.insert(transcription::partial_path_in(dir), Entry::File);
    let full = replaced(stored, unpack, o.content);
    match o.dirs {
        Some(dirs) => {
            if o.room {
                if dirs.len() == 1 {
                    assert(is_within(dirs[0], unpack));
                }
                lemma_installed(dir, full, dirs);
            }
        },
        None => {},
    }
}

/// Where there is no model, a download succeeds exactly when everything goes well: the
/// server sends an archive, all that it announced comes and is stored, it unpacks, and
/// what was unpacked is put into its place.
pub proof fn law_download_succeeds_when_all_goes_well(
    dir: Seq<char>,
    disk: Map<Seq<char>, Entry>,
    o: Outside,
)
    requires
        !has_model(disk, dir),
    ensures
        download(dir, disk, o).success <==> {
            &&& o.directory
            &&& came_whole(o)
            &&& o.created
            &&& o.stored
            &&& o.room
            &&& o.failure is None
            &&& o.dirs is Some
            &&& o.installation is Done
        },
{
}

/// A download that fails leaves the model's place as it was, with all that is in it,
/// unless it fails at putting the model there; and it never leaves a model where there
/// was none.
pub proof fn law_failure_leaves_the_model_alone(
    dir: Seq<char>,
    disk: Map<Seq<char>, Entry>,
    o: Outside,
)
    requires
        !download(dir, disk, o).success,
    ensures
        o.installation !is Failed || o.installation->kept ==> same_model(
            download(dir, disk, o).disk,
            disk,
            dir,
        ),
        o.directory ==> !has_model(download(dir, disk, o).disk, dir),
{
    let target = transcription::model_path_in(dir);
    let after = download(dir, disk, o).disk;
    lemma_all_apart(dir);
    assert forall|p: Seq<char>|
        is_within(p, target) && (o.installation !is Failed
            || o.installation->kept) implies #[trigger] after.get(p) == disk.get(p) by {
        assert(p != transcription::partial_path_in(dir));
        assert(p != transcription::unpack_dir_in(dir));
    }
    assert(is_within(target, target));
    assert(target != transcription::partial_path_in(dir));
    assert(target != transcription::unpack_dir_in(dir));
}

} // verus!
