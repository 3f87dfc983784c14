//! The per-path scan: a state machine that asks for one I/O operation at a
//! time and, from what each one returns, decides the next one or the path's
//! verdict.
use vstd::prelude::*;
use crate::key::{thumbnail_name_of, thumbnail_path};
use crate::mode::{is_file, regular_type, type_mask};
use crate::png::{fresh, is_fresh};
use crate::uri::{file, file_uri};
use crate::xdg::join;

verus! {

/// How many bytes are read of a thumbnail, and of a source to classify it.
pub const READ_LEN: usize = 1024;

/// What `stat` reported of a source path.
pub struct SourceInfo {
    /// The mode word, file-type bits included.
    pub mode: u32,
    /// Whole seconds from the epoch to the last modification.
    pub mtime_secs: u64,
    /// The path made absolute, where that succeeded and gave valid text.
    pub absolute: Option<String>,
}

/// How an I/O operation ended.
pub enum Completion {
    /// A `stat` of the source: `None` where it failed.
    Stat(Option<SourceInfo>),
    /// An `open`: the descriptor, or a negative error number.
    Open(i32),
    /// A `read`: the bytes read, none where it failed or found nothing.
    Read(Vec<u8>),
}

/// An I/O operation that a task asks for.
pub enum Op {
    /// Look up the metadata of the source, following symbolic links.
    StatSource { path: Vec<u8> },
    /// Open a thumbnail read-only, refusing symbolic links.
    OpenArtifact { artifact: String },
    /// Read up to `len` bytes of an opened thumbnail, then close it.
    ReadArtifact { fd: i32, len: usize },
    /// Open the source read-only.
    OpenSource { path: Vec<u8> },
    /// Read up to `len` bytes of an opened source, then close it.
    ReadSource { fd: i32, len: usize },
}

/// Where a task stands: the operation it waits for, and what it needs next.
pub enum Stage {
    /// The source's metadata is being looked up.
    StatSource,
    /// The thumbnail of the source with URI `uri`, modified at `mtime_secs`,
    /// is being opened.
    OpenArtifact { uri: String, mtime_secs: u64 },
    /// That thumbnail, opened as `fd`, is being read.
    ReadArtifact { uri: String, mtime_secs: u64, fd: i32 },
    /// The source, whose thumbnail is missing or stale, is being opened.
    OpenSource { uri: String },
    /// The source, opened as `fd`, is being read.
    ReadSource { uri: String, fd: i32 },
}

/// The scan of one source path.
pub struct ScanTask {
    /// The path as given, in the platform's encoding.
    pub source: Vec<u8>,
    /// Where the scan of the path stands.
    pub stage: Stage,
}

/// What became of a path.
#[derive(PartialEq, Eq, Structural, Clone, Copy, Debug)]
pub enum Verdict {
    /// Its metadata could not be read: it does not exist, or is out of reach.
    Missing,
    /// It is not a regular file.
    NotRegular,
    /// It has no absolute form as text, so no URI.
    NotText,
    /// Its thumbnail is up to date.
    Fresh,
    /// It could not be opened, or nothing could be read of it.
    Unreadable,
    /// Its media type could not be told.
    Unknown,
    /// Its media type is not one that thumbnails are made of.
    Unsupported,
    /// It needs a thumbnail, and has a media type that thumbnails are made of.
    Accepted,
}

/// What a task does after a completion.
pub enum Step {
    /// It goes on to the next stage, asking for an operation.
    Next(ScanTask, Op),
    /// It ends with a verdict.
    Done(Verdict),
    /// It has read its source: the URI and the bytes go to classification.
    Classify(String, Vec<u8>),
}

/// The order of the stages; each step moves strictly forward.
pub open spec fn rank(s: Stage) -> nat {
    match s {
        Stage::StatSource => 0,
        Stage::OpenArtifact { .. } => 1,
        Stage::ReadArtifact { .. } => 2,
        Stage::OpenSource { .. } => 3,
        Stage::ReadSource { .. } => 4,
    }
}

/// The URI that a stage carries, empty before the source was looked up.
pub open spec fn stage_uri(s: Stage) -> Seq<char> {
    match s {
        Stage::StatSource => Seq::empty(),
        Stage::OpenArtifact { uri, .. } => uri@,
        Stage::ReadArtifact { uri, .. } => uri@,
        Stage::OpenSource { uri } => uri@,
        Stage::ReadSource { uri, .. } => uri@,
    }
}

/// The stat result of a completion, where it is one and succeeded.
pub open spec fn stat_info(ev: Completion) -> Option<SourceInfo> {
    match ev {
        Completion::Stat(i) => i,
        _ => None,
    }
}

/// The descriptor that a completion opened, where it is one and succeeded.
pub open spec fn opened(ev: Completion) -> Option<i32> {
    match ev {
        Completion::Open(fd) => if fd >= 0 {
            Some(fd)
        } else {
            None
        },
        _ => None,
    }
}

/// The bytes that a completion read: empty where it is no read.
pub open spec fn bytes_read(ev: Completion) -> Seq<u8> {
    match ev {
        Completion::Read(b) => b@,
        _ => Seq::empty(),
    }
}

/// Whether `r` takes `task`, with its source path, on to the stage of rank
/// `stage_rank` carrying the URI `uri`, and asks for an operation.
pub open spec fn goes_on(r: Step, task: ScanTask, stage_rank: nat, uri: Seq<char>) -> bool {
    &&& r is Next
    &&& r->Next_0.source@ == task.source@
    &&& rank(r->Next_0.stage) == stage_rank
    &&& stage_uri(r->Next_0.stage) == uri
}

/// What `advance` does with `task` when its operation ends with `ev`,
/// where `dir` is the directory of the thumbnails of the wanted flavor.
pub open spec fn advance_post(task: ScanTask, ev: Completion, dir: Seq<char>, r: Step) -> bool {
    &&& r is Next ==> rank(r->Next_0.stage) > rank(task.stage)
    &&& match task.stage {
        Stage::StatSource => match stat_info(ev) {
            None => r == Step::Done(Verdict::Missing),
            Some(info) => if info.mode & type_mask() != regular_type() {
                r == Step::Done(Verdict::NotRegular)
            } else {
                match info.absolute {
                    None => r == Step::Done(Verdict::NotText),
                    Some(a) => {
                        &&& goes_on(r, task, 1, file_uri(a@))
                        &&& r->Next_0.stage->OpenArtifact_mtime_secs == info.mtime_secs
                        &&& r->Next_1 is OpenArtifact
                        &&& r->Next_1->OpenArtifact_artifact@ == join(
                            dir,
                            thumbnail_name_of(file_uri(a@)),
                        )
                    },
                }
            },
        },
        Stage::OpenArtifact { uri, mtime_secs } => match opened(ev) {
            Some(fd) => {
                &&& goes_on(r, task, 2, uri@)
                &&& r->Next_0.stage->ReadArtifact_mtime_secs == mtime_secs
                &&& r->Next_1 == Op::ReadArtifact { fd, len: READ_LEN }
            },
            None => goes_on(r, task, 3, uri@) && r->Next_1 is OpenSource
                && r->Next_1->OpenSource_path@ == task.source@,
        },
        Stage::ReadArtifact { uri, mtime_secs, fd } => if bytes_read(ev).len() > 0 && fresh(
            bytes_read(ev),
            mtime_secs,
        ) {
            r == Step::Done(Verdict::Fresh)
        } else {
            goes_on(r, task, 3, uri@) && r->Next_1 is OpenSource
                && r->Next_1->OpenSource_path@ == task.source@
        },
        Stage::OpenSource { uri } => match opened(ev) {
            Some(fd) => goes_on(r, task, 4, uri@) && r->Next_1 == Op::ReadSource {
                fd,
                len: READ_LEN,
            },
            None => r == Step::Done(Verdict::Unreadable),
        },
        Stage::ReadSource { uri, fd } => if bytes_read(ev).len() > 0 {
            r is Classify && r->Classify_0@ == uri@ && r->Classify_1@ == bytes_read(ev)
        } else {
            r == Step::Done(Verdict::Unreadable)
        },
    }
}

/// The step that follows `task` when its operation ends with `ev`; `dir` is
/// the directory of the thumbnails of the wanted flavor.
///
/// A path whose stat fails is missing; one that is not a regular file, or
/// has no absolute form as text, ends there too. Otherwise its URI names the
/// thumbnail, which is opened and read: if it records the source's
/// modification time the path is done. If not, or if it cannot be opened or
/// read, the source is opened and read, and what was read goes to
/// classification. A source that cannot be opened or read is unreadable.
pub fn advance(task: ScanTask, ev: Completion, dir: &str) -> (r: Step)
    ensures
        advance_post(task, ev, dir@, r),
{
    let ScanTask { source, stage } = task;
    match stage {
        Stage::StatSource => match ev {
            Completion::Stat(Some(info)) => {
                if !is_file(info.mode) {
                    return Step::Done(Verdict::NotRegular);
                }
                match info.absolute {
                    Some(a) => {
                        let uri = match file(a.as_str()) {
                            Some(u) => u,
                            None => String::new(),
                        };
                        let path = thumbnail_path(dir, uri.as_str());
                        Step::Next(
                            ScanTask {
                                source,
                                stage: Stage::OpenArtifact { uri, mtime_secs: info.mtime_secs },
                            },
                            Op::OpenArtifact { artifact: path },
                        )
                    },
                    None => Step::Done(Verdict::NotText),
                }
            },
            _ => Step::Done(Verdict::Missing),
        },
        Stage::OpenArtifact { uri, mtime_secs } => match ev {
            Completion::Open(fd) if fd >= 0 => Step::Next(
                ScanTask { source, stage: Stage::ReadArtifact { uri, mtime_secs, fd } },
                Op::ReadArtifact { fd, len: READ_LEN },
            ),
            _ => {
                let path = source.clone();
                Step::Next(ScanTask { source, stage: Stage::OpenSource { uri } }, Op::OpenSource { path })
            },
        },
        Stage::ReadArtifact { uri, mtime_secs, fd } => {
            let up_to_date = match &ev {
                Completion::Read(b) => b.len() > 0 && is_fresh(b.as_slice(), mtime_secs),
                _ => false,
            };
            if up_to_date {
                Step::Done(Verdict::Fresh)
            } else {
                let path = source.clone();
                Step::Next(ScanTask { source, stage: Stage::OpenSource { uri } }, Op::OpenSource { path })
            }
        },
        Stage::OpenSource { uri } => match ev {
            Completion::Open(fd) if fd >= 0 => Step::Next(
                ScanTask { source, stage: Stage::ReadSource { uri, fd } },
                Op::ReadSource { fd, len: READ_LEN },
            ),
            _ => Step::Done(Verdict::Unreadable),
        },
        Stage::ReadSource { uri, fd } => match ev {
            Completion::Read(b) if b.len() > 0 => Step::Classify(uri, b),
            _ => Step::Done(Verdict::Unreadable),
        },
    }
}

/// A slot of the scan: one per input path, found by its index, which is
/// the token that each of the path's operations carries.
pub enum Slot {
    /// The path waits for the operation that its stage names.
    InFlight(ScanTask),
    /// The first bytes of the source, whose URI this is, are being classified.
    Classifying(String),
    /// The path is done.
    Resolved(Verdict),
}

/// How many elements of `s` meet `f`.
pub open spec fn count<A>(s: Seq<A>, f: spec_fn(A) -> bool) -> nat
    decreases s.len(),
{
    if s.len() == 0 {
        0
    } else {
        count(s.drop_last(), f) + if f(s.last()) {
            1nat
        } else {
            0nat
        }
    }
}

/// Whether a slot still waits for something.
pub open spec fn unresolved(s: Slot) -> bool {
    !(s is Resolved)
}

/// Whether a slot ended with its path accepted.
pub open spec fn accepted(s: Slot) -> bool {
    s is Resolved && s->Resolved_0 == Verdict::Accepted
}

proof fn lemma_count_push<A>(s: Seq<A>, x: A, f: spec_fn(A) -> bool)
    ensures
        count(s.push(x), f) == count(s, f) + if f(x) {
            1nat
        } else {
            0nat
        },
{
    assert(s.push(x).drop_last() =~= s);
}

proof fn lemma_count_update<A>(s: Seq<A>, i: int, x: A, f: spec_fn(A) -> bool)
    requires
        0 <= i < s.len(),
    ensures
        count(s.update(i, x), f) + (if f(s[i]) {
            1nat
        } else {
            0nat
        }) == count(s, f) + if f(x) {
            1nat
        } else {
            0nat
        },
    decreases s.len(),
{
    if i == s.len() - 1 {
        assert(s.update(i, x).drop_last() =~= s.drop_last());
    } else {
        lemma_count_update(s.drop_last(), i, x, f);
        assert(s.update(i, x).drop_last() =~= s.drop_last().update(i, x));
    }
}

proof fn lemma_count_zero<A>(s: Seq<A>, f: spec_fn(A) -> bool)
    ensures
        count(s, f) == 0 <==> forall|i: int| 0 <= i < s.len() ==> !f(#[trigger] s[i]),
    decreases s.len(),
{
    if s.len() > 0 {
        lemma_count_zero(s.drop_last(), f);
        if count(s, f) == 0 {
            assert forall|i: int| 0 <= i < s.len() implies !f(#[trigger] s[i]) by {
                if i < s.len() - 1 {
                    assert(s.drop_last()[i] == s[i]);
                }
            }
        }
        if forall|i: int| 0 <= i < s.len() ==> !f(#[trigger] s[i]) {
            assert forall|i: int| 0 <= i < s.drop_last().len() implies !f(
                #[trigger] s.drop_last()[i],
            ) by {
                assert(s.drop_last()[i] == s[i]);
            }
            assert(!f(s[s.len() - 1]));
        }
    }
}

/// What the completions of a path have shown of it so far.
pub struct PathFacts {
    /// Its stat succeeded and shows a regular file.
    pub regular: bool,
    /// It has an absolute form as text.
    pub text: bool,
    /// Its thumbnail was read and records its modification time.
    pub fresh: bool,
    /// Its source was opened, and bytes were read of it.
    pub readable: bool,
    /// Its media type was told, and is one that the allow list names.
    pub allowed: bool,
}

/// Nothing shown yet.
pub open spec fn no_facts() -> PathFacts {
    PathFacts { regular: false, text: false, fresh: false, readable: false, allowed: false }
}

/// Whether a path needs a thumbnail that the service can make: a regular
/// file named by text, without a fresh thumbnail, readable, and of a media
/// type that the allow list names.
pub open spec fn eligible(f: PathFacts) -> bool {
    f.regular && f.text && !f.fresh && f.readable && f.allowed
}

/// What a path's facts become when the operation of `stage` ends with `ev`.
pub open spec fn learn(f: PathFacts, stage: Stage, ev: Completion) -> PathFacts {
    match stage {
        Stage::StatSource => match stat_info(ev) {
            Some(info) => PathFacts {
                regular: info.mode & type_mask() == regular_type(),
                text: info.absolute is Some,
                ..f
            },
            None => f,
        },
        Stage::ReadArtifact { mtime_secs, .. } => PathFacts {
            fresh: bytes_read(ev).len() > 0 && fresh(bytes_read(ev), mtime_secs),
            ..f
        },
        Stage::OpenSource { .. } => PathFacts { readable: opened(ev) is Some, ..f },
        Stage::ReadSource { .. } => PathFacts { readable: f.readable && bytes_read(ev).len() > 0, ..f },
        Stage::OpenArtifact { .. } => f,
    }
}

/// What a path's facts become when its media type is told as `mime`.
pub open spec fn learn_media(f: PathFacts, mime: Option<String>, allow: Seq<String>) -> PathFacts {
    PathFacts { allowed: media_verdict(mime, allow) == Verdict::Accepted, ..f }
}

/// Whether the facts `f` of a path agree with its slot: those that its
/// stage presumes hold, and a resolved path is accepted just when eligible.
pub open spec fn consistent(slot: Slot, f: PathFacts) -> bool {
    match slot {
        Slot::InFlight(t) => match t.stage {
            Stage::StatSource => f == no_facts(),
            Stage::ReadSource { .. } => f.regular && f.text && !f.fresh && f.readable && !f.allowed,
            _ => f.regular && f.text && !f.fresh && !f.readable && !f.allowed,
        },
        Slot::Classifying(_) => f.regular && f.text && !f.fresh && f.readable && !f.allowed,
        Slot::Resolved(v) => (v == Verdict::Accepted) == eligible(f),
    }
}

/// The slot that a task moves to with the step `r`.
pub open spec fn slot_after(r: Step) -> Slot {
    match r {
        Step::Next(t, _) => Slot::InFlight(t),
        Step::Classify(uri, _) => Slot::Classifying(uri),
        Step::Done(v) => Slot::Resolved(v),
    }
}

proof fn lemma_learn_consistent(task: ScanTask, ev: Completion, dir: Seq<char>, r: Step, f: PathFacts)
    requires
        advance_post(task, ev, dir, r),
        consistent(Slot::InFlight(task), f),
    ensures
        consistent(slot_after(r), learn(f, task.stage, ev)),
{
}

proof fn lemma_count_agree<A, B>(a: Seq<A>, b: Seq<B>, f: spec_fn(A) -> bool, g: spec_fn(B) -> bool)
    requires
        a.len() == b.len(),
        forall|i: int| 0 <= i < a.len() ==> f(#[trigger] a[i]) == g(b[i]),
    ensures
        count(a, f) == count(b, g),
    decreases a.len(),
{
    if a.len() > 0 {
        assert forall|i: int| 0 <= i < a.drop_last().len() implies f(#[trigger] a.drop_last()[i])
            == g(b.drop_last()[i]) by {
            assert(a.drop_last()[i] == a[i]);
            assert(b.drop_last()[i] == b[i]);
        }
        lemma_count_agree(a.drop_last(), b.drop_last(), f, g);
        assert(f(a[a.len() - 1]) == g(b[b.len() - 1]));
    }
}

/// The scan of a batch of paths: a slot for each, the count of the paths
/// that are not done yet, and the URIs and media types of the accepted ones.
pub struct Scan {
    dir: String,
    slots: Vec<Slot>,
    pending: usize,
    uris: Vec<String>,
    mimes: Vec<String>,
    facts: Ghost<Seq<PathFacts>>,
}

/// What a completion led to.
pub enum Progress {
    /// The path asks for this operation next, under the same token.
    Submit(Op),
    /// The path's source bytes are to be classified, under the same token.
    Classify(Vec<u8>),
    /// The path is done.
    Resolved(Verdict),
    /// The token names no path that waits for an operation; nothing changed.
    Stale,
}

impl Scan {
    /// The directory of the thumbnails that the scan looks up.
    pub closed spec fn thumbnail_dir(&self) -> Seq<char> {
        self.dir@
    }

    /// The slots, one for each path, in the order of the paths.
    pub closed spec fn slots(&self) -> Seq<Slot> {
        self.slots@
    }

    /// The count of the paths that are not done yet.
    pub closed spec fn remaining(&self) -> nat {
        self.pending as nat
    }

    /// The URIs of the accepted paths, in the order of acceptance.
    pub closed spec fn accepted_uris(&self) -> Seq<String> {
        self.uris@
    }

    /// The media types of the accepted paths, aligned with their URIs.
    pub closed spec fn accepted_mimes(&self) -> Seq<String> {
        self.mimes@
    }

    /// What the completions have shown of each path, in the order of the paths.
    pub closed spec fn facts(&self) -> Seq<PathFacts> {
        self.facts@
    }

    /// The scan's invariant: the count of paths not done is the count of
    /// slots not resolved; the accepted batch holds one entry for each slot
    /// resolved as accepted, URIs and media types aligned; and each path's
    /// facts agree with its slot.
    pub closed spec fn wf(&self) -> bool {
        &&& self.pending as nat == count(self.slots@, |s: Slot| unresolved(s))
        &&& self.uris@.len() == count(self.slots@, |s: Slot| accepted(s))
        &&& self.mimes@.len() == self.uris@.len()
        &&& self.facts@.len() == self.slots@.len()
        &&& forall|i: int| 0 <= i < self.slots@.len() ==> consistent(#[trigger] self.slots@[i], self.facts@[i])
    }

    /// Starts the scan of `paths`, looking up thumbnails in `dir`. Returns
    /// the scan and, at each index, the first operation of the path there;
    /// that index is the token of all of the path's operations.
    pub fn new(dir: String, paths: Vec<Vec<u8>>) -> (r: (Scan, Vec<Op>))
        ensures
            r.0.wf(),
            r.0.thumbnail_dir() == dir@,
            r.0.slots().len() == paths@.len(),
            r.1@.len() == paths@.len(),
            r.0.remaining() == paths@.len(),
            r.0.accepted_uris().len() == 0,
            r.0.facts() == Seq::new(paths@.len(), |i: int| no_facts()),
            forall|i: int|
                #![trigger r.0.slots()[i]]
                0 <= i < paths@.len() ==> {
                    &&& r.0.slots()[i] is InFlight
                    &&& r.0.slots()[i]->InFlight_0.stage is StatSource
                    &&& r.0.slots()[i]->InFlight_0.source@ == paths@[i]@
                    &&& r.1@[i] is StatSource
                    &&& r.1@[i]->StatSource_path@ == paths@[i]@
                },
    {
        let mut slots: Vec<Slot> = Vec::new();
        let mut ops: Vec<Op> = Vec::new();
        let mut i: usize = 0;
        while i < paths.len()
            invariant
                i <= paths@.len(),
                slots@.len() == i,
                ops@.len() == i,
                count(slots@, |s: Slot| unresolved(s)) == i,
                count(slots@, |s: Slot| accepted(s)) == 0,
                forall|k: int|
                    #![trigger slots@[k]]
                    0 <= k < i ==> {
                        &&& slots@[k] is InFlight
                        &&& slots@[k]->InFlight_0.stage is StatSource
                        &&& slots@[k]->InFlight_0.source@ == paths@[k]@
                        &&& ops@[k] is StatSource
                        &&& ops@[k]->StatSource_path@ == paths@[k]@
                    },
            decreases paths@.len() - i,
        {
            let slot = Slot::InFlight(ScanTask { source: paths[i].clone(), stage: Stage::StatSource });
            proof {
                lemma_count_push(slots@, slot, |s: Slot| unresolved(s));
                lemma_count_push(slots@, slot, |s: Slot| accepted(s));
            }
            slots.push(slot);
            ops.push(Op::StatSource { path: paths[i].clone() });
            i = i + 1;
        }
        let ghost facts = Seq::new(paths@.len(), |i: int| no_facts());
        let scan = Scan { dir, slots, pending: i, uris: Vec::new(), mimes: Vec::new(), facts: Ghost(facts) };
        (scan, ops)
    }

    /// The count of the paths that are not done yet.
    pub fn pending(&self) -> (r: usize)
        ensures
            r == self.remaining(),
    {
        self.pending
    }

    /// Whether every path is done.
    pub fn is_done(&self) -> (r: bool)
        requires
            self.wf(),
        ensures
            r == (self.remaining() == 0),
            r <==> forall|i: int| 0 <= i < self.slots().len() ==> #[trigger] self.slots()[i] is Resolved,
    {
        proof {
            lemma_count_zero(self.slots@, |s: Slot| unresolved(s));
        }
        self.pending == 0
    }

    /// Feeds the scan the completion `ev` of the operation with token
    /// `token`, and says what the path does next (see `advance`). A token
    /// whose path waits for no operation is stale and changes nothing. The
    /// count of paths not done drops by one exactly when the path is done.
    pub fn complete(&mut self, token: usize, ev: Completion) -> (r: Progress)
        requires
            old(self).wf(),
        ensures
            final(self).wf(),
            final(self).thumbnail_dir() == old(self).thumbnail_dir(),
            final(self).accepted_uris() == old(self).accepted_uris(),
            final(self).accepted_mimes() == old(self).accepted_mimes(),
            final(self).slots().len() == old(self).slots().len(),
            forall|j: int|
                0 <= j < old(self).slots().len() && j != token ==> #[trigger] final(self).slots()[j]
                    == old(self).slots()[j],
            !(token < old(self).slots().len() && old(self).slots()[token as int] is InFlight) ==> {
                &&& r is Stale
                &&& final(self).slots() == old(self).slots()
                &&& final(self).remaining() == old(self).remaining()
                &&& final(self).facts() == old(self).facts()
            },
            token < old(self).slots().len() && old(self).slots()[token as int] is InFlight ==> {
                let task = old(self).slots()[token as int]->InFlight_0;
                let dir = old(self).thumbnail_dir();
                let now = final(self).slots()[token as int];
                &&& final(self).facts() == old(self).facts().update(
                    token as int,
                    learn(old(self).facts()[token as int], task.stage, ev),
                )
                &&& match r {
                    Progress::Submit(op) => {
                        &&& now is InFlight
                        &&& advance_post(task, ev, dir, Step::Next(now->InFlight_0, op))
                        &&& final(self).remaining() == old(self).remaining()
                    },
                    Progress::Classify(b) => {
                        &&& now is Classifying
                        &&& advance_post(task, ev, dir, Step::Classify(now->Classifying_0, b))
                        &&& final(self).remaining() == old(self).remaining()
                    },
                    Progress::Resolved(v) => {
                        &&& now == Slot::Resolved(v)
                        &&& advance_post(task, ev, dir, Step::Done(v))
                        &&& final(self).remaining() + 1 == old(self).remaining()
                    },
                    Progress::Stale => false,
                }
            },
    {
        if token >= self.slots.len() {
            return Progress::Stale;
        }
        let in_flight = match &self.slots[token] {
            Slot::InFlight(_) => true,
            _ => false,
        };
        if !in_flight {
            return Progress::Stale;
        }
        let ghost before = self.slots@;
        let mut slot = Slot::Resolved(Verdict::Missing);
        std::mem::swap(&mut self.slots[token], &mut slot);
        let task = match slot {
            Slot::InFlight(t) => t,
            _ => {
                return Progress::Stale;
            },
        };
        let ghost old_task = task;
        let ghost old_ev = ev;
        let ghost f = learn(self.facts@[token as int], task.stage, ev);
        let step = advance(task, ev, self.dir.as_str());
        proof {
            lemma_learn_consistent(old_task, old_ev, self.dir@, step, self.facts@[token as int]);
        }
        let ghost after = slot_after(step);
        let (next, r, done) = match step {
            Step::Next(t, op) => (Slot::InFlight(t), Progress::Submit(op), false),
            Step::Classify(uri, b) => (Slot::Classifying(uri), Progress::Classify(b), false),
            Step::Done(v) => (Slot::Resolved(v), Progress::Resolved(v), true),
        };
        assert(next == after);
        self.slots[token] = next;
        self.facts = Ghost(self.facts@.update(token as int, f));
        proof {
            assert(self.slots@ =~= before.update(token as int, next));
            lemma_count_update(before, token as int, next, |s: Slot| unresolved(s));
            lemma_count_update(before, token as int, next, |s: Slot| accepted(s));
        }
        if done {
            self.pending = self.pending - 1;
        }
        r
    }

    /// Feeds the scan the media type `mime` that the sniffer told of the
    /// path with token `token`, `None` where it could tell none, and
    /// resolves the path: accepted where `allow` lists the type, and then
    /// added to the batch with its URI. A token whose path is not being
    /// classified is stale: the result is `None` and nothing changes.
    pub fn classified(&mut self, token: usize, mime: Option<String>, allow: &Vec<String>) -> (r:
        Option<Verdict>)
        requires
            old(self).wf(),
        ensures
            final(self).wf(),
            final(self).thumbnail_dir() == old(self).thumbnail_dir(),
            final(self).slots().len() == old(self).slots().len(),
            forall|j: int|
                0 <= j < old(self).slots().len() && j != token ==> #[trigger] final(self).slots()[j]
                    == old(self).slots()[j],
            !(token < old(self).slots().len() && old(self).slots()[token as int] is Classifying)
                ==> {
                &&& r is None
                &&& final(self).slots() == old(self).slots()
                &&& final(self).remaining() == old(self).remaining()
                &&& final(self).accepted_uris() == old(self).accepted_uris()
                &&& final(self).accepted_mimes() == old(self).accepted_mimes()
                &&& final(self).facts() == old(self).facts()
            },
            token < old(self).slots().len() && old(self).slots()[token as int] is Classifying ==> {
                let uri = old(self).slots()[token as int]->Classifying_0;
                let v = media_verdict(mime, allow@);
                &&& r == Some(v)
                &&& final(self).facts() == old(self).facts().update(
                    token as int,
                    learn_media(old(self).facts()[token as int], mime, allow@),
                )
                &&& final(self).slots()[token as int] == Slot::Resolved(v)
                &&& final(self).remaining() + 1 == old(self).remaining()
                &&& v == Verdict::Accepted ==> final(self).accepted_uris() == old(
                    self,
                ).accepted_uris().push(uri) && final(self).accepted_mimes() == old(
                    self,
                ).accepted_mimes().push(mime->0)
                &&& v != Verdict::Accepted ==> final(self).accepted_uris() == old(
                    self,
                ).accepted_uris() && final(self).accepted_mimes() == old(self).accepted_mimes()
            },
    {
        if token >= self.slots.len() {
            return None;
        }
        let classifying = match &self.slots[token] {
            Slot::Classifying(_) => true,
            _ => false,
        };
        if !classifying {
            return None;
        }
        let ghost before = self.slots@;
        let mut slot = Slot::Resolved(Verdict::Missing);
        std::mem::swap(&mut self.slots[token], &mut slot);
        let uri = match slot {
            Slot::Classifying(u) => u,
            _ => {
                return None;
            },
        };
        let ghost f = learn_media(self.facts@[token as int], mime, allow@);
        let v = match mime {
            None => Verdict::Unknown,
            Some(m) => if is_allowed(&m, allow) {
                self.uris.push(uri);
                self.mimes.push(m);
                Verdict::Accepted
            } else {
                Verdict::Unsupported
            },
        };
        self.slots[token] = Slot::Resolved(v);
        self.facts = Ghost(self.facts@.update(token as int, f));
        proof {
            assert(self.slots@ =~= before.update(token as int, Slot::Resolved(v)));
            lemma_count_update(before, token as int, Slot::Resolved(v), |s: Slot| unresolved(s));
            lemma_count_update(before, token as int, Slot::Resolved(v), |s: Slot| accepted(s));
        }
        self.pending = self.pending - 1;
        Some(v)
    }

    /// Ends the scan, handing out the URIs of the accepted paths and their
    /// media types, aligned.
    pub fn into_batch(self) -> (r: (Vec<String>, Vec<String>))
        ensures
            r.0@ == self.accepted_uris(),
            r.1@ == self.accepted_mimes(),
    {
        (self.uris, self.mimes)
    }
}

/// Whether `allow` lists the media type `m`.
pub open spec fn allows(allow: Seq<String>, m: Seq<char>) -> bool {
    exists|i: int| 0 <= i < allow.len() && (#[trigger] allow[i])@ == m
}

/// The verdict on a path whose source was classified as `mime`.
pub open spec fn media_verdict(mime: Option<String>, allow: Seq<String>) -> Verdict {
    match mime {
        None => Verdict::Unknown,
        Some(m) => if allows(allow, m@) {
            Verdict::Accepted
        } else {
            Verdict::Unsupported
        },
    }
}

/// Whether `allow` lists the media type `mime`.
pub fn is_allowed(mime: &String, allow: &Vec<String>) -> (r: bool)
    ensures
        r == allows(allow@, mime@),
{
    let mut i: usize = 0;
    while i < allow.len()
        invariant
            i <= allow@.len(),
            forall|k: int| 0 <= k < i ==> (#[trigger] allow@[k])@ != mime@,
        decreases allow@.len() - i,
    {
        if allow[i] == *mime {
            return true;
        }
        i = i + 1;
    }
    false
}

/// The completion tracker counts exactly the paths that are not done: it
/// is zero just when every path is resolved, and never above the number of
/// paths. As `complete` and `classified` lower it by one exactly when they
/// resolve a path, and leave resolved paths alone, it reaches zero once.
pub proof fn lemma_tracker(scan: Scan)
    requires
        scan.wf(),
    ensures
        scan.remaining() == count(scan.slots(), |s: Slot| unresolved(s)),
        scan.remaining() <= scan.slots().len(),
        scan.remaining() == 0 <==> forall|i: int|
            0 <= i < scan.slots().len() ==> #[trigger] scan.slots()[i] is Resolved,
{
    lemma_count_zero(scan.slots(), |s: Slot| unresolved(s));
    lemma_count_bound(scan.slots(), |s: Slot| unresolved(s));
}

/// The accepted batch holds one URI and one media type for each path
/// resolved as accepted, and nothing else.
pub proof fn lemma_batch_size(scan: Scan)
    requires
        scan.wf(),
    ensures
        scan.accepted_uris().len() == count(scan.slots(), |s: Slot| accepted(s)),
        scan.accepted_mimes().len() == scan.accepted_uris().len(),
{
}

proof fn lemma_count_bound<A>(s: Seq<A>, f: spec_fn(A) -> bool)
    ensures
        count(s, f) <= s.len(),
    decreases s.len(),
{
    if s.len() > 0 {
        lemma_count_bound(s.drop_last(), f);
    }
}

/// Once every path is done, the accepted batch holds exactly as many
/// entries as there are eligible paths: regular files named by text, with
/// no fresh thumbnail, readable, and of a media type on the allow list.
pub proof fn lemma_batch_is_eligible(scan: Scan)
    requires
        scan.wf(),
        scan.remaining() == 0,
    ensures
        scan.accepted_uris().len() == count(scan.facts(), |f: PathFacts| eligible(f)),
        scan.accepted_mimes().len() == scan.accepted_uris().len(),
{
    lemma_tracker(scan);
    let slots = scan.slots();
    let facts = scan.facts();
    assert forall|i: int| 0 <= i < slots.len() implies accepted(#[trigger] slots[i]) == eligible(
        facts[i],
    ) by {
        assert(slots[i] is Resolved);
        assert(consistent(slots[i], facts[i]));
    }
    lemma_count_agree(slots, facts, |s: Slot| accepted(s), |f: PathFacts| eligible(f));
}

} // verus!
