//! The incremental build oracle: whether an object file is stale, judged by
//! the dependency manifest the compiler wrote for it and by the modification
//! times of the files that the manifest lists.
//!
//! The oracle reads no file itself. It is handed a snapshot of what was
//! observed on disk and decides from that alone.

use vstd::prelude::*;
use crate::builder::ObjectFile;
use crate::config::ProjectConfig;
use crate::depfile::{manifest_inputs, parse_depfile};
use crate::text::texts;

verus! {

/// A point in time: whole seconds since the epoch and the nanoseconds
/// within the second.
#[derive(Debug, Clone, Copy, PartialEq, Eq, Structural)]
pub struct Timestamp {
    pub secs: i64,
    pub nanos: u32,
}

impl Timestamp {
    /// Whether `self` is strictly later than `other`.
    pub open spec fn is_after(self, other: Timestamp) -> bool {
        self.secs > other.secs || (self.secs == other.secs && self.nanos > other.nanos)
    }

    /// Whether `self` is strictly later than `other`.
    pub fn later_than(&self, other: &Timestamp) -> (r: bool)
        ensures
            r == self.is_after(*other),
    {
        self.secs > other.secs || (self.secs == other.secs && self.nanos > other.nanos)
    }
}

/// What was observed of one file.
#[derive(Debug, Clone, Copy, PartialEq, Eq, Structural)]
pub enum FileStamp {
    /// The file does not exist, or nothing can be learned of it.
    Missing,
    /// The file exists and its modification time cannot be read.
    Unreadable,
    /// The file exists and was last modified at this time.
    Modified(Timestamp),
}

/// What was observed of one input that a manifest lists.
#[derive(Debug)]
pub struct InputStamp {
    pub path: String,
    pub stamp: FileStamp,
}

/// What was observed on disk for one task.
#[derive(Debug)]
pub struct Snapshot {
    /// The object file of the task.
    pub object: FileStamp,
    /// The text of its dependency manifest; `None` where the manifest does
    /// not exist or cannot be read.
    pub manifest: Option<String>,
    /// The inputs that were looked at. An input that is listed by the
    /// manifest and absent here counts as missing.
    pub inputs: Vec<InputStamp>,
}

/// The mathematical value of a `Snapshot`.
pub struct SnapshotView {
    pub object: FileStamp,
    pub manifest: Option<Seq<char>>,
    pub inputs: Seq<(Seq<char>, FileStamp)>,
}

/// The values of a list of observed inputs.
pub open spec fn input_views(v: Seq<InputStamp>) -> Seq<(Seq<char>, FileStamp)> {
    v.map_values(|i: InputStamp| (i.path@, i.stamp))
}

impl View for Snapshot {
    type V = SnapshotView;

    open spec fn view(&self) -> SnapshotView {
        SnapshotView {
            object: self.object,
            manifest: match self.manifest {
                Some(text) => Some(text@),
                None => None,
            },
            inputs: input_views(self.inputs@),
        }
    }
}

/// What `inputs` holds for `path` from index `i` on: the stamp of the first
/// entry for that path, `Missing` where there is none.
pub open spec fn stamp_from(inputs: Seq<(Seq<char>, FileStamp)>, path: Seq<char>, i: int) -> FileStamp
    decreases inputs.len() - i,
{
    if i < 0 || i >= inputs.len() {
        FileStamp::Missing
    } else if inputs[i].0 == path {
        inputs[i].1
    } else {
        stamp_from(inputs, path, i + 1)
    }
}

/// What `inputs` holds for `path`.
pub open spec fn stamp_of(inputs: Seq<(Seq<char>, FileStamp)>, path: Seq<char>) -> FileStamp {
    stamp_from(inputs, path, 0)
}

/// Whether a file with this stamp counts as newer than `reference`: a
/// missing file does, a file with an unreadable time does not, and any
/// other does when its time is strictly later.
pub open spec fn newer(stamp: FileStamp, reference: Timestamp) -> bool {
    match stamp {
        FileStamp::Missing => true,
        FileStamp::Unreadable => false,
        FileStamp::Modified(t) => t.is_after(reference),
    }
}

/// Whether one of the inputs `listed` counts as newer than `reference`.
pub open spec fn any_newer(
    listed: Seq<Seq<char>>,
    inputs: Seq<(Seq<char>, FileStamp)>,
    reference: Timestamp,
) -> bool {
    exists|k: int| 0 <= k < listed.len() && newer(stamp_of(inputs, #[trigger] listed[k]), reference)
}

/// Whether a task must be compiled again. It must when the build is not
/// incremental, when the object file is missing or its time unreadable,
/// when the manifest is missing or malformed, and when one of the inputs
/// listed in the manifest is missing or newer than the object file.
pub open spec fn needs_rebuild(incremental: bool, seen: SnapshotView) -> bool {
    if !incremental {
        true
    } else {
        match seen.object {
            FileStamp::Modified(built) => match seen.manifest {
                None => true,
                Some(text) => match manifest_inputs(text) {
                    None => true,
                    Some(listed) => any_newer(listed, seen.inputs, built),
                },
            },
            _ => true,
        }
    }
}

/// An up-to-date task stays up to date as long as its manifest and the
/// inputs it lists are unchanged and its object file is not older than it
/// was.
pub proof fn lemma_oracle_monotone(incremental: bool, before: SnapshotView, later: SnapshotView)
    requires
        !needs_rebuild(incremental, before),
        later.manifest == before.manifest,
        forall|path: Seq<char>| stamp_of(later.inputs, path) == stamp_of(before.inputs, path),
        later.object matches FileStamp::Modified(t2) && before.object matches FileStamp::Modified(
            t1,
        ) && !t1.is_after(t2),
    ensures
        !needs_rebuild(incremental, later),
{
    let t1 = before.object->Modified_0;
    let t2 = later.object->Modified_0;
    let listed = manifest_inputs(before.manifest->0)->0;
    assert forall|k: int| 0 <= k < listed.len() implies !newer(
        stamp_of(later.inputs, #[trigger] listed[k]),
        t2,
    ) by {
        assert(!newer(stamp_of(before.inputs, listed[k]), t1));
    }
}

/// A task whose manifest lists an input that no longer exists must be
/// compiled again.
pub proof fn lemma_deleted_input_forces_rebuild(incremental: bool, seen: SnapshotView, k: int)
    requires
        seen.manifest is Some,
        manifest_inputs(seen.manifest->0) is Some,
        0 <= k < manifest_inputs(seen.manifest->0)->0.len(),
        stamp_of(seen.inputs, manifest_inputs(seen.manifest->0)->0[k]) is Missing,
    ensures
        needs_rebuild(incremental, seen),
{
    let listed = manifest_inputs(seen.manifest->0)->0;
    if incremental {
        if let FileStamp::Modified(built) = seen.object {
            assert(newer(stamp_of(seen.inputs, listed[k]), built));
        }
    }
}

/// Whether a file with this stamp counts as newer than `reference`.
pub fn is_newer_than(stamp: &FileStamp, reference: &Timestamp) -> (r: bool)
    ensures
        r == newer(*stamp, *reference),
{
    match stamp {
        FileStamp::Missing => true,
        FileStamp::Unreadable => false,
        FileStamp::Modified(t) => t.later_than(reference),
    }
}

/// What `inputs` holds for `path`.
pub fn stamp_for(inputs: &Vec<InputStamp>, path: &String) -> (r: FileStamp)
    ensures
        r == stamp_of(input_views(inputs@), path@),
{
    let mut i: usize = 0;
    while i < inputs.len()
        invariant
            i <= inputs.len(),
            stamp_of(input_views(inputs@), path@) == stamp_from(
                input_views(inputs@),
                path@,
                i as int,
            ),
        decreases inputs.len() - i,
    {
        if inputs[i].path == *path {
            return inputs[i].stamp;
        }
        i = i + 1;
    }
    FileStamp::Missing
}

/// Decides whether `obj` must be compiled again, given what was seen on
/// disk for it.
pub fn should_recompile(obj: &ObjectFile, config: &ProjectConfig, seen: &Snapshot) -> (r: bool)
    ensures
        r == needs_rebuild(config@.incremental, seen@),
{
    if !config.incremental {
        return true;
    }
    let built = match seen.object {
        FileStamp::Modified(t) => t,
        _ => {
            return true;
        },
    };
    let text = match &seen.manifest {
        Some(text) => text,
        None => {
            return true;
        },
    };
    let listed = match parse_depfile(obj.dep_path.as_str(), text.as_str()) {
        Ok(listed) => listed,
        Err(_) => {
            return true;
        },
    };
    let ghost paths = texts(listed@);
    let mut k: usize = 0;
    while k < listed.len()
        invariant
            k <= listed.len(),
            paths == texts(listed@),
            config@.incremental,
            seen@.object == FileStamp::Modified(built),
            seen@.manifest is Some,
            manifest_inputs(seen@.manifest->0) == Some(paths),
            forall|j: int|
                0 <= j < k ==> !newer(stamp_of(input_views(seen.inputs@), #[trigger] paths[j]), built),
        decreases listed.len() - k,
    {
        let stamp = stamp_for(&seen.inputs, &listed[k]);
        if is_newer_than(&stamp, &built) {
            assert(paths[k as int] == listed@[k as int]@);
            assert(newer(stamp_of(input_views(seen.inputs@), paths[k as int]), built));
            return true;
        }
        assert(paths[k as int] == listed@[k as int]@);
        k = k + 1;
    }
    false
}

} // verus!
