//! Post-download handling: the queue of torrents to consume, what each attempt's outcome
//! does to it, which files of a torrent are copied, and the names a moved item may take.
use vstd::prelude::*;

use crate::rpc::{Torrent, TorrentFile, TransmissionClientError, TransmissionRpcError};
use crate::text::{decimal, push_decimal, same_text};

verus! {

/// Seconds to wait before a batch that met a temporary error is tried again.
pub const RETRY_DELAY_SECS: u64 = 60;

/// The set of hashes a list of strings holds.
pub open spec fn names(v: Seq<String>) -> Set<Seq<char>> {
    Set::new(|h: Seq<char>| exists|i: int| 0 <= i < v.len() && #[trigger] v[i]@ == h)
}

/// No hash is listed twice.
pub open spec fn unique(v: Seq<String>) -> bool {
    forall|i: int, j: int| 0 <= i < j < v.len() ==> (#[trigger] v[i])@ != (#[trigger] v[j])@
}

/// How one attempt at a queued torrent ended.
#[derive(Debug, Clone, Copy, PartialEq, Eq, Structural)]
pub enum Outcome {
    /// Consumed.
    Done,
    /// The torrent is gone or downloads again: drop it, with no retry.
    Cancelled,
    /// The engine could not be asked: keep it and retry the batch later.
    Temporary,
    /// Consuming failed: drop it and never try it again in this process.
    Persistent,
}

/// The queue's two sets as the laws speak of them.
pub struct QueueView {
    pub in_process: Set<Seq<char>>,
    pub failed: Set<Seq<char>>,
}

/// The queue after `consume(h)`.
pub open spec fn after_consume(q: QueueView, h: Seq<char>) -> QueueView {
    QueueView { in_process: q.in_process.insert(h), failed: q.failed }
}

/// The queue after an attempt at `h` ended with `o`.
pub open spec fn after_outcome(q: QueueView, h: Seq<char>, o: Outcome) -> QueueView {
    match o {
        Outcome::Done | Outcome::Cancelled => QueueView {
            in_process: q.in_process.remove(h),
            failed: q.failed,
        },
        Outcome::Temporary => q,
        Outcome::Persistent => QueueView {
            in_process: q.in_process.remove(h),
            failed: q.failed.insert(h),
        },
    }
}

/// The torrents scheduled for consuming, and those that failed for good.
pub struct ConsumerQueue {
    in_process: Vec<String>,
    failed: Vec<String>,
}

impl ConsumerQueue {
    pub closed spec fn view(&self) -> QueueView {
        QueueView { in_process: names(self.in_process@), failed: names(self.failed@) }
    }

    pub closed spec fn wf(&self) -> bool {
        unique(self.in_process@) && unique(self.failed@)
    }

    pub fn new() -> (r: ConsumerQueue)
        ensures
            r.wf(),
            r.view().in_process.is_empty(),
            r.view().failed.is_empty(),
    {
        let r = ConsumerQueue { in_process: Vec::new(), failed: Vec::new() };
        assert(r.view().in_process =~= Set::empty());
        assert(r.view().failed =~= Set::empty());
        r
    }

    /// Schedules `hash`; scheduling it again changes nothing.
    pub fn consume(&mut self, hash: &str)
        requires
            old(self).wf(),
        ensures
            final(self).wf(),
            final(self).view() == after_consume(old(self).view(), hash@),
            final(self).view().in_process.contains(hash@),
    {
        insert_name(&mut self.in_process, hash);
    }

    /// A copy of the hashes scheduled now.
    pub fn get_in_process(&self) -> (r: Vec<String>)
        requires
            self.wf(),
        ensures
            names(r@) == self.view().in_process,
            unique(r@),
    {
        let r = self.in_process.clone();
        proof {
            assert forall|i: int| 0 <= i < r@.len() implies (#[trigger] r@[i])@
                == self.in_process@[i]@ by {}
            assert(names(r@) =~= names(self.in_process@)) by {
                assert forall|h: Seq<char>| names(r@).contains(h) implies names(
                    self.in_process@,
                ).contains(h) by {
                    let i = choose|i: int| 0 <= i < r@.len() && #[trigger] r@[i]@ == h;
                    assert(self.in_process@[i]@ == h);
                }
                assert forall|h: Seq<char>| names(self.in_process@).contains(h) implies names(
                    r@,
                ).contains(h) by {
                    let i = choose|i: int| 0 <= i < self.in_process@.len() && #[trigger] self.in_process@[i]@ == h;
                    assert(r@[i]@ == h);
                }
            }
        }
        r
    }

    /// The hashes a batch of the worker takes: scheduled and not failed.
    pub fn pending(&self) -> (r: Vec<String>)
        requires
            self.wf(),
        ensures
            names(r@) == self.view().in_process.difference(self.view().failed),
    {
        let mut r: Vec<String> = Vec::new();
        let mut i: usize = 0;
        while i < self.in_process.len()
            invariant
                i <= self.in_process@.len(),
                forall|h: Seq<char>|
                    #[trigger] names(r@).contains(h) <==> (exists|j: int|
                        0 <= j < i && #[trigger] self.in_process@[j]@ == h) && !names(
                        self.failed@,
                    ).contains(h),
            decreases self.in_process.len() - i,
        {
            let h = &self.in_process[i];
            match position(&self.failed, h.as_str()) {
                Some(k) => {
                    proof {
                        assert forall|x: Seq<char>| #[trigger] names(r@).contains(x) <==> (exists|j: int|
                            0 <= j < i + 1 && #[trigger] self.in_process@[j]@ == x) && !names(
                            self.failed@,
                        ).contains(x) by {
                            if x == h@ {
                                assert(self.failed@[k as int]@ == x);
                            } else {
                                if exists|j: int| 0 <= j < i + 1 && #[trigger] self.in_process@[j]@ == x {
                                    let j = choose|j: int| 0 <= j < i + 1 && #[trigger] self.in_process@[j]@ == x;
                                    assert(j != i);
                                }
                            }
                        }
                    }
                },
                None => {
                    let ghost before = r@;
                    r.push(h.clone());
                    proof {
                        lemma_names_push(before, r@[r@.len() - 1]);
                        assert(r@ == before.push(r@[r@.len() - 1]));
                        assert forall|x: Seq<char>| #[trigger] names(r@).contains(x) <==> (exists|j: int|
                            0 <= j < i + 1 && #[trigger] self.in_process@[j]@ == x) && !names(
                            self.failed@,
                        ).contains(x) by {
                            if x == h@ {
                                assert(self.in_process@[i as int]@ == x);
                                if names(self.failed@).contains(x) {
                                    let k = choose|k: int| 0 <= k < self.failed@.len() && #[trigger] self.failed@[k]@ == x;
                                    assert(self.failed@[k]@ != h@);
                                }
                            } else {
                                if exists|j: int| 0 <= j < i + 1 && #[trigger] self.in_process@[j]@ == x {
                                    let j = choose|j: int| 0 <= j < i + 1 && #[trigger] self.in_process@[j]@ == x;
                                    assert(j != i);
                                }
                            }
                        }
                    }
                },
            }
            i = i + 1;
        }
        proof {
            assert(names(r@) =~= names(self.in_process@).difference(names(self.failed@))) by {
                assert forall|x: Seq<char>| names(self.in_process@).contains(x) implies (exists|j: int|
                    0 <= j < self.in_process@.len() && #[trigger] self.in_process@[j]@ == x) by {}
            }
        }
        r
    }

    /// Records how an attempt at `hash` ended. Returns whether the batch goes on: only a
    /// temporary error stops it.
    pub fn finish(&mut self, hash: &str, outcome: Outcome) -> (go_on: bool)
        requires
            old(self).wf(),
        ensures
            final(self).wf(),
            final(self).view() == after_outcome(old(self).view(), hash@, outcome),
            go_on == (outcome != Outcome::Temporary),
    {
        match outcome {
            Outcome::Done | Outcome::Cancelled => {
                remove_name(&mut self.in_process, hash);
                true
            },
            Outcome::Temporary => false,
            Outcome::Persistent => {
                remove_name(&mut self.in_process, hash);
                insert_name(&mut self.failed, hash);
                true
            },
        }
    }
}

/// After `consume(h)`, a snapshot of the scheduled hashes holds `h`.
pub proof fn lemma_consume_then_snapshot(q: QueueView, h: Seq<char>)
    ensures
        after_consume(q, h).in_process.contains(h),
{
}

/// What an attempt leaves of `h`: once consumed, neither scheduled nor failed; after a
/// persistent error, failed and no longer scheduled; after a temporary one, still scheduled
/// and not failed, when it was scheduled and had not failed before.
pub proof fn lemma_outcome_sets(q: QueueView, h: Seq<char>)
    requires
        q.in_process.contains(h),
        !q.failed.contains(h),
    ensures
        !after_outcome(q, h, Outcome::Done).in_process.contains(h),
        !after_outcome(q, h, Outcome::Done).failed.contains(h),
        !after_outcome(q, h, Outcome::Persistent).in_process.contains(h),
        after_outcome(q, h, Outcome::Persistent).failed.contains(h),
        after_outcome(q, h, Outcome::Temporary).in_process.contains(h),
        !after_outcome(q, h, Outcome::Temporary).failed.contains(h),
{
}

proof fn lemma_names_push(v: Seq<String>, s: String)
    ensures
        names(v.push(s)) == names(v).insert(s@),
{
    let w = v.push(s);
    assert forall|h: Seq<char>| names(w).contains(h) <==> names(v).insert(s@).contains(h) by {
        if names(w).contains(h) {
            let i = choose|i: int| 0 <= i < w.len() && #[trigger] w[i]@ == h;
            if i < v.len() {
                assert(v[i]@ == h);
            }
        }
        if names(v).contains(h) {
            let i = choose|i: int| 0 <= i < v.len() && #[trigger] v[i]@ == h;
            assert(w[i]@ == h);
        }
        if h == s@ {
            assert(w[v.len() as int]@ == h);
        }
    }
    assert(names(w) =~= names(v).insert(s@));
}

/// The index of `h` in `v`, if it is there.
fn position(v: &Vec<String>, h: &str) -> (r: Option<usize>)
    ensures
        match r {
            Some(i) => i < v@.len() && v@[i as int]@ == h@,
            None => !names(v@).contains(h@),
        },
{
    let mut i: usize = 0;
    while i < v.len()
        invariant
            i <= v@.len(),
            forall|j: int| 0 <= j < i ==> (#[trigger] v@[j])@ != h@,
        decreases v.len() - i,
    {
        if same_text(v[i].as_str(), h) {
            return Some(i);
        }
        i = i + 1;
    }
    None
}

fn insert_name(v: &mut Vec<String>, h: &str)
    requires
        unique(old(v)@),
    ensures
        unique(final(v)@),
        names(final(v)@) == names(old(v)@).insert(h@),
{
    match position(v, h) {
        Some(i) => {
            assert(names(v@).insert(h@) =~= names(v@));
        },
        None => {
            let ghost before = v@;
            let s = String::from_str(h);
            v.push(s);
            proof {
                lemma_names_push(before, s);
                assert forall|i: int, j: int| 0 <= i < j < v@.len() implies (#[trigger] v@[i])@
                    != (#[trigger] v@[j])@ by {
                    if j == before.len() {
                        assert(before[i]@ == v@[i]@);
                    }
                }
            }
        },
    }
}

fn remove_name(v: &mut Vec<String>, h: &str)
    requires
        unique(old(v)@),
    ensures
        unique(final(v)@),
        names(final(v)@) == names(old(v)@).remove(h@),
{
    match position(v, h) {
        Some(i) => {
            let ghost before = v@;
            v.remove(i);
            proof {
                let after = v@;
                assert(after == before.remove(i as int));
                assert forall|x: Seq<char>| names(after).contains(x) <==> names(before).remove(
                    h@,
                ).contains(x) by {
                    if names(after).contains(x) {
                        let k = choose|k: int| 0 <= k < after.len() && #[trigger] after[k]@ == x;
                        if k < i {
                            assert(before[k]@ == x);
                        } else {
                            assert(before[k + 1]@ == x);
                            assert(before[k + 1]@ != before[i as int]@);
                        }
                    }
                    if names(before).contains(x) && x != h@ {
                        let k = choose|k: int| 0 <= k < before.len() && #[trigger] before[k]@ == x;
                        if k < i {
                            assert(after[k]@ == x);
                        } else {
                            assert(k != i);
                            assert(after[k - 1]@ == x);
                        }
                    }
                }
                assert(names(after) =~= names(before).remove(h@));
                assert forall|a: int, b: int| 0 <= a < b < after.len() implies (#[trigger] after[a])@
                    != (#[trigger] after[b])@ by {
                    let a0 = if a < i {
                        a
                    } else {
                        a + 1
                    };
                    let b0 = if b < i {
                        b
                    } else {
                        b + 1
                    };
                    assert(after[a] == before[a0] && after[b] == before[b0]);
                    assert(before[a0]@ != before[b0]@);
                }
            }
        },
        None => {
            assert(names(v@).remove(h@) =~= names(v@));
        },
    }
}

/// What fetching a queued torrent says about the attempt: `None` when it is to be consumed.
/// A torrent the engine no longer has, or that downloads again, is cancelled; any other
/// failure to fetch it is temporary.
pub fn fetch_outcome(fetched: &Result<Torrent, TransmissionClientError>) -> (r: Option<Outcome>)
    ensures
        match fetched {
            Ok(t) => r == if t.done {
                None::<Outcome>
            } else {
                Some(Outcome::Cancelled)
            },
            Err(TransmissionClientError::Rpc(TransmissionRpcError::TorrentNotFoundError(_))) => r
                == Some(Outcome::Cancelled),
            Err(_) => r == Some(Outcome::Temporary),
        },
{
    match fetched {
        Ok(t) => if t.done {
            None
        } else {
            Some(Outcome::Cancelled)
        },
        Err(TransmissionClientError::Rpc(TransmissionRpcError::TorrentNotFoundError(_))) => Some(
            Outcome::Cancelled,
        ),
        Err(_) => Some(Outcome::Temporary),
    }
}

// ----- file names inside a torrent -----
/// `s` cut at every `/`.
pub open spec fn path_segments(s: Seq<char>) -> Seq<Seq<char>>
    decreases s.len(),
{
    if s.len() == 0 {
        seq![Seq::empty()]
    } else if s.last() == '/' {
        path_segments(s.drop_last()).push(Seq::empty())
    } else {
        let parts = path_segments(s.drop_last());
        parts.update(parts.len() - 1, parts.last().push(s.last()))
    }
}

/// A segment that names a file or directory: not empty, not `.` and not `..`.
pub open spec fn is_normal(c: Seq<char>) -> bool {
    c.len() > 0 && c != seq!['.'] && c != seq!['.', '.']
}

/// The components of a relative path: its normal segments, in order. Empty segments and
/// `.` segments after the first are no components at all.
pub open spec fn normal_segments(s: Seq<char>) -> Seq<Seq<char>> {
    path_segments(s).filter(|c: Seq<char>| is_normal(c))
}

/// A file name inside a torrent is accepted when it is a relative path (it neither starts
/// at the root nor with `.`), holds no `..`, and names at least one component.
pub open spec fn file_name_ok(s: Seq<char>) -> bool {
    let segs = path_segments(s);
    &&& segs[0].len() > 0
    &&& segs[0] != seq!['.']
    &&& forall|i: int| 0 <= i < segs.len() ==> #[trigger] segs[i] != seq!['.', '.']
    &&& normal_segments(s).len() > 0
}

/// Components joined with `/`.
pub open spec fn join_path(parts: Seq<Seq<char>>) -> Seq<char>
    decreases parts.len(),
{
    if parts.len() == 0 {
        Seq::empty()
    } else if parts.len() == 1 {
        parts[0]
    } else {
        join_path(parts.drop_last()) + seq!['/'] + parts.last()
    }
}

/// A file of a torrent, validated: its top-level component, its normalised relative path and
/// its last component.
#[derive(Debug, PartialEq, Eq)]
pub struct FilePlan {
    pub root: String,
    pub path: String,
    pub name: String,
}

pub open spec fn plan_of(s: Seq<char>, p: FilePlan) -> bool {
    &&& p.root@ == normal_segments(s)[0]
    &&& p.path@ == join_path(normal_segments(s))
    &&& p.name@ == normal_segments(s).last()
}

/// Validates a file name that the engine reports for a torrent: only ordinary components
/// are allowed, at least one of them.
pub fn validate_torrent_file_name(file_name: &str) -> (r: Result<FilePlan, String>)
    ensures
        r is Ok <==> file_name_ok(file_name@),
        r matches Ok(p) ==> plan_of(file_name@, p),
        r matches Err(e) ==> e@ == "Invalid torrent file name: "@ + file_name@,
{
    let mut error = String::from_str("Invalid torrent file name: ");
    error.append(file_name);
    let segments = split_path(file_name);
    let ghost segs = path_segments(file_name@);
    proof {
        lemma_segments_nonempty(file_name@);
    }
    let ghost pred = |c: Seq<char>| is_normal(c);
    let n = segments.len();
    if segments[0].unicode_len() == 0 || same_text(segments[0].as_str(), ".") {
        proof {
            reveal_strlit(".");
            assert(".".view() =~= seq!['.']);
        }
        return Err(error);
    }
    let mut path = String::new();
    let mut root = String::new();
    let mut name = String::new();
    let mut count: usize = 0;
    let mut i: usize = 0;
    proof {
        reveal(Seq::filter);
        reveal_strlit(".");
        reveal_strlit("..");
        reveal_strlit("/");
        assert(".".view() =~= seq!['.']);
        assert("..".view() =~= seq!['.', '.']);
        assert(segs.subrange(0, 0).filter(pred) =~= Seq::<Seq<char>>::empty());
    }
    while i < n
        invariant
            i <= n,
            n == segs.len(),
            n == segments@.len(),
            segs == path_segments(file_name@),
            error@ == "Invalid torrent file name: "@ + file_name@,
            forall|j: int| 0 <= j < n ==> (#[trigger] segments@[j])@ == segs[j],
            pred == |c: Seq<char>| is_normal(c),
            ".".view() == seq!['.'],
            "..".view() == seq!['.', '.'],
            "/".view() == seq!['/'],
            forall|j: int| 0 <= j < i ==> #[trigger] segs[j] != seq!['.', '.'],
            count as int == segs.subrange(0, i as int).filter(pred).len(),
            count > 0 ==> root@ == segs.subrange(0, i as int).filter(pred)[0],
            count > 0 ==> name@ == segs.subrange(0, i as int).filter(pred).last(),
            path@ == join_path(segs.subrange(0, i as int).filter(pred)),
        decreases n - i,
    {
        let seg = segments[i].as_str();
        proof {
            reveal(Seq::filter);
            assert(segs.subrange(0, i + 1).drop_last() =~= segs.subrange(0, i as int));
            assert(segs.subrange(0, i + 1).last() == segs[i as int]);
        }
        if same_text(seg, "..") {
            return Err(error);
        }
        if seg.unicode_len() > 0 && !same_text(seg, ".") {
            let ghost before = segs.subrange(0, i as int).filter(pred);
            assert(seg@ == segs[i as int]);
            assert(is_normal(seg@));
            assert(pred(seg@));
            assert(segs.subrange(0, i + 1).filter(pred) == before.push(seg@));
            if count == 0 {
                root = String::from_str(seg);
                path = String::from_str(seg);
                assert(before.len() == 0);
                assert(before.push(seg@) =~= seq![seg@]);
            } else {
                path.append("/");
                path.append(seg);
                assert(before.push(seg@).drop_last() =~= before);
                assert(before.push(seg@)[0] == before[0]);
            }
            name = String::from_str(seg);
            count = count + 1;
        } else {
            assert(segs.subrange(0, i + 1).filter(pred) == segs.subrange(0, i as int).filter(pred));
        }
        i = i + 1;
    }
    assert(segs.subrange(0, n as int) =~= segs);
    if count == 0 {
        return Err(error);
    }
    Ok(FilePlan { root, path, name })
}

pub(crate) proof fn lemma_segments_nonempty(s: Seq<char>)
    ensures
        path_segments(s).len() >= 1,
    decreases s.len(),
{
    if s.len() > 0 {
        lemma_segments_nonempty(s.drop_last());
    }
}

/// `s` cut at every `/`.
pub(crate) fn split_path(s: &str) -> (r: Vec<String>)
    ensures
        r@.len() == path_segments(s@).len(),
        forall|j: int| 0 <= j < r@.len() ==> (#[trigger] r@[j])@ == path_segments(s@)[j],
{
    let n = s.unicode_len();
    let mut done: Vec<String> = Vec::new();
    let mut start: usize = 0;
    let mut i: usize = 0;
    assert(s@.subrange(0, 0) =~= Seq::<char>::empty());
    while i < n
        invariant
            start <= i <= n,
            n == s@.len(),
            path_segments(s@.subrange(0, i as int)).len() == done@.len() + 1,
            forall|j: int|
                0 <= j < done@.len() ==> (#[trigger] done@[j])@ == path_segments(
                    s@.subrange(0, i as int),
                )[j],
            path_segments(s@.subrange(0, i as int)).last() == s@.subrange(start as int, i as int),
        decreases n - i,
    {
        let c = s.get_char(i);
        assert(s@.subrange(0, i + 1).drop_last() =~= s@.subrange(0, i as int));
        if c == '/' {
            done.push(String::from_str(s.substring_char(start, i)));
            start = i + 1;
            assert(s@.subrange(start as int, i + 1) =~= Seq::<char>::empty());
        } else {
            assert(s@.subrange(start as int, i as int).push(c) =~= s@.subrange(
                start as int,
                i + 1,
            ));
        }
        i = i + 1;
    }
    done.push(String::from_str(s.substring_char(start, n)));
    assert(s@.subrange(0, n as int) =~= s@);
    done
}

/// A validated file's root holds its path's first characters: the root is the path's
/// first component.
pub proof fn lemma_root_in_path(s: Seq<char>)
    requires
        file_name_ok(s),
    ensures
        join_path(normal_segments(s)).len() >= normal_segments(s)[0].len(),
        join_path(normal_segments(s)).subrange(0, normal_segments(s)[0].len() as int)
            == normal_segments(s)[0],
{
    lemma_join_starts_with_first(normal_segments(s));
}

proof fn lemma_join_starts_with_first(parts: Seq<Seq<char>>)
    requires
        parts.len() > 0,
    ensures
        join_path(parts).len() >= parts[0].len(),
        join_path(parts).subrange(0, parts[0].len() as int) == parts[0],
    decreases parts.len(),
{
    if parts.len() > 1 {
        let front = parts.drop_last();
        lemma_join_starts_with_first(front);
        assert(front[0] == parts[0]);
        let j = join_path(parts);
        assert(j == join_path(front) + seq!['/'] + parts.last());
        assert(j.subrange(0, parts[0].len() as int) =~= join_path(front).subrange(
            0,
            parts[0].len() as int,
        ));
    } else {
        assert(join_path(parts).subrange(0, parts[0].len() as int) =~= parts[0]);
    }
}

/// Whether a file is skipped when a torrent is copied: its last component is hidden.
pub open spec fn is_hidden(name: Seq<char>) -> bool {
    name.len() > 0 && name[0] == '.'
}

/// The selected files of a torrent that are copied, in order, or the error of the first
/// selected file whose name is refused.
pub open spec fn copy_plan(files: Seq<TorrentFile>, n: int) -> Result<Seq<Seq<char>>, Seq<char>>
    decreases n,
{
    if n <= 0 {
        Ok(Seq::empty())
    } else {
        match copy_plan(files, n - 1) {
            Err(e) => Err(e),
            Ok(ps) => {
                let f = files[n - 1];
                if !f.selected {
                    Ok(ps)
                } else if !file_name_ok(f.name@) {
                    Err(f.name@)
                } else if is_hidden(normal_segments(f.name@).last()) {
                    Ok(ps)
                } else {
                    Ok(ps.push(f.name@))
                }
            },
        }
    }
}

/// Plans the copy of a torrent: the selected files, validated, without hidden ones.
pub fn plan_copy(files: &Vec<TorrentFile>) -> (r: Result<Vec<FilePlan>, String>)
    ensures
        match copy_plan(files@, files@.len() as int) {
            Ok(names) => r matches Ok(plans) && plans@.len() == names.len() && forall|i: int|
                0 <= i < plans@.len() ==> plan_of(names[i], #[trigger] plans@[i]),
            Err(bad) => r matches Err(e) && e@ == "Invalid torrent file name: "@ + bad,
        },
{
    let mut plans: Vec<FilePlan> = Vec::new();
    let mut i: usize = 0;
    while i < files.len()
        invariant
            i <= files@.len(),
            copy_plan(files@, i as int) matches Ok(names) && plans@.len() == names.len()
                && forall|k: int| 0 <= k < plans@.len() ==> plan_of(names[k], #[trigger] plans@[k]),
        decreases files.len() - i,
    {
        let f = &files[i];
        if f.selected {
            match validate_torrent_file_name(f.name.as_str()) {
                Err(e) => {
                    proof {
                        lemma_copy_plan_err(files@, i as int + 1, files@.len() as int);
                    }
                    return Err(e);
                },
                Ok(plan) => {
                    if !(plan.name.unicode_len() > 0 && plan.name.as_str().get_char(0) == '.') {
                        plans.push(plan);
                    }
                },
            }
        }
        i = i + 1;
    }
    Ok(plans)
}

proof fn lemma_copy_plan_err(files: Seq<TorrentFile>, n: int, m: int)
    requires
        0 <= n <= m,
        copy_plan(files, n) is Err,
    ensures
        copy_plan(files, m) == copy_plan(files, n),
    decreases m - n,
{
    if m > n {
        lemma_copy_plan_err(files, n, m - 1);
    }
}

// ----- moving into the destination -----
/// How many names a moved item may take: its own, then `DUP_1.` to `DUP_9.` before it.
pub const MOVE_ATTEMPTS: u64 = 10;

/// The name tried at attempt `attempt` when moving an item called `name`.
pub open spec fn move_name(name: Seq<char>, attempt: nat) -> Seq<char> {
    if attempt == 0 {
        name
    } else {
        "DUP_"@ + decimal(attempt) + "."@ + name
    }
}

/// The name to try at attempt `attempt` (from 0) for an item called `name`, or `None` when
/// every name has been tried.
pub fn move_target_name(name: &str, attempt: u64) -> (r: Option<String>)
    ensures
        attempt < MOVE_ATTEMPTS ==> (r matches Some(n) && n@ == move_name(name@, attempt as nat)),
        attempt >= MOVE_ATTEMPTS ==> r is None,
{
    if attempt >= MOVE_ATTEMPTS {
        return None;
    }
    if attempt == 0 {
        return Some(String::from_str(name));
    }
    let mut r = String::from_str("DUP_");
    push_decimal(&mut r, attempt);
    r.append(".");
    r.append(name);
    Some(r)
}

// ----- the staging directory at startup -----
/// The views of a list of strings.
pub open spec fn texts(v: Seq<String>) -> Seq<Seq<char>> {
    v.map_values(|s: String| s@)
}

/// The entries of the staging directory that are not hidden, in order: what a crash left
/// there.
pub fn abandoned_entries(entries: &Vec<String>) -> (r: Vec<String>)
    ensures
        texts(r@) == texts(entries@).filter(|n: Seq<char>| !is_hidden(n)),
{
    let ghost pred = |n: Seq<char>| !is_hidden(n);
    let mut r: Vec<String> = Vec::new();
    let mut i: usize = 0;
    proof {
        reveal(Seq::filter);
        assert(texts(entries@).subrange(0, 0).filter(pred) =~= Seq::<Seq<char>>::empty());
        assert(texts(r@) =~= Seq::<Seq<char>>::empty());
    }
    while i < entries.len()
        invariant
            i <= entries@.len(),
            pred == |n: Seq<char>| !is_hidden(n),
            texts(r@) == texts(entries@).subrange(0, i as int).filter(pred),
        decreases entries.len() - i,
    {
        let e = entries[i].as_str();
        proof {
            reveal(Seq::filter);
            let pre = texts(entries@).subrange(0, i + 1);
            assert(pre.drop_last() =~= texts(entries@).subrange(0, i as int));
            assert(pre.last() == e@);
        }
        if !(e.unicode_len() > 0 && e.get_char(0) == '.') {
            let ghost before = r@;
            r.push(String::from_str(e));
            assert(texts(r@) =~= texts(before).push(e@));
        }
        i = i + 1;
    }
    assert(texts(entries@).subrange(0, entries@.len() as int) =~= texts(entries@));
    r
}

// ----- directories inside the staging directory -----
/// The directories that lead to the relative path `rel`, each given from the staging
/// directory: its first component, the first two, and so on, up to the whole path. None of
/// them is empty, so the staging directory itself is never among them.
pub fn dir_chain(rel: &str) -> (r: Vec<String>)
    ensures
        r@.len() == normal_segments(rel@).len(),
        forall|i: int|
            0 <= i < r@.len() ==> (#[trigger] r@[i])@ == join_path(
                normal_segments(rel@).subrange(0, i + 1),
            ),
        forall|i: int| 0 <= i < r@.len() ==> (#[trigger] r@[i])@.len() > 0,
{
    let segments = split_path(rel);
    let ghost segs = path_segments(rel@);
    let ghost pred = |c: Seq<char>| is_normal(c);
    let mut chain: Vec<String> = Vec::new();
    let mut path = String::new();
    let mut i: usize = 0;
    proof {
        reveal(Seq::filter);
        reveal_strlit(".");
        reveal_strlit("..");
        reveal_strlit("/");
        assert(".".view() =~= seq!['.']);
        assert("..".view() =~= seq!['.', '.']);
        assert(segs.subrange(0, 0).filter(pred) =~= Seq::<Seq<char>>::empty());
    }
    while i < segments.len()
        invariant
            i <= segments@.len(),
            segments@.len() == segs.len(),
            segs == path_segments(rel@),
            forall|j: int| 0 <= j < segs.len() ==> (#[trigger] segments@[j])@ == segs[j],
            pred == |c: Seq<char>| is_normal(c),
            ".".view() == seq!['.'],
            "..".view() == seq!['.', '.'],
            "/".view() == seq!['/'],
            chain@.len() == segs.subrange(0, i as int).filter(pred).len(),
            path@ == join_path(segs.subrange(0, i as int).filter(pred)),
            forall|k: int|
                0 <= k < chain@.len() ==> (#[trigger] chain@[k])@ == join_path(
                    segs.subrange(0, i as int).filter(pred).subrange(0, k + 1),
                ),
            forall|k: int| 0 <= k < chain@.len() ==> (#[trigger] chain@[k])@.len() > 0,
        decreases segments.len() - i,
    {
        let seg = segments[i].as_str();
        let ghost before = segs.subrange(0, i as int).filter(pred);
        proof {
            reveal(Seq::filter);
            assert(segs.subrange(0, i + 1).drop_last() =~= segs.subrange(0, i as int));
            assert(segs.subrange(0, i + 1).last() == segs[i as int]);
            assert(seg@ == segs[i as int]);
        }
        if seg.unicode_len() > 0 && !same_text(seg, ".") && !same_text(seg, "..") {
            assert(pred(seg@));
            let ghost after = before.push(seg@);
            assert(segs.subrange(0, i + 1).filter(pred) == after);
            if chain.len() == 0 {
                path = String::from_str(seg);
                assert(after =~= seq![seg@]);
            } else {
                path.append("/");
                path.append(seg);
                assert(after.drop_last() =~= before);
            }
            let ghost old_chain = chain@;
            chain.push(String::from_str(path.as_str()));
            proof {
                assert(after.subrange(0, after.len() as int) =~= after);
                assert forall|k: int| 0 <= k < chain@.len() implies (#[trigger] chain@[k])@
                    == join_path(after.subrange(0, k + 1)) by {
                    if k < old_chain.len() {
                        assert(chain@[k] == old_chain[k]);
                        assert(after.subrange(0, k + 1) =~= before.subrange(0, k + 1));
                    }
                }
                lemma_join_nonempty(after);
            }
        } else {
            assert(!pred(seg@));
            assert(segs.subrange(0, i + 1).filter(pred) == before);
        }
        i = i + 1;
    }
    assert(segs.subrange(0, segs.len() as int) =~= segs);
    chain
}

proof fn lemma_join_nonempty(parts: Seq<Seq<char>>)
    requires
        parts.len() > 0,
        forall|i: int| 0 <= i < parts.len() ==> is_normal(#[trigger] parts[i]),
    ensures
        join_path(parts).len() > 0,
    decreases parts.len(),
{
    if parts.len() > 1 {
        assert(is_normal(parts[parts.len() - 1]));
    } else {
        assert(is_normal(parts[0]));
    }
}

// ----- opening a file the engine reports as complete -----
/// How long to wait for the engine to rename a `.part` file, in milliseconds.
pub const PART_WAIT_LIMIT_MS: u64 = 5000;

/// How long to sleep between two looks at a `.part` file, in milliseconds.
pub const PART_POLL_MS: u64 = 100;

/// What a look at the file's `.part` twin found.
#[derive(Debug, Clone, Copy, PartialEq, Eq, Structural)]
pub enum PartFile {
    Present,
    Missing,
    Unreadable,
}

/// What to do after a failed attempt to open a downloaded file.
#[derive(Debug, Clone, Copy, PartialEq, Eq, Structural)]
pub enum OpenStep {
    /// Look for the file's `.part` twin.
    CheckPart,
    /// Sleep `PART_POLL_MS` and try again.
    Wait,
    /// Try again without looking for the `.part` twin any more.
    Retry,
    /// The engine did not rename the `.part` file in time.
    GiveUp,
    /// Fail with the error of the attempt.
    Fail,
}

/// After the file could not be opened: some engine versions report a file as complete
/// before they rename it from `<name>.part`, so a missing file is looked for under that
/// name, once the look is still allowed.
pub fn after_open_failure(not_found: bool, check_part: bool) -> (r: OpenStep)
    ensures
        r == if not_found && check_part {
            OpenStep::CheckPart
        } else {
            OpenStep::Fail
        },
{
    if not_found && check_part {
        OpenStep::CheckPart
    } else {
        OpenStep::Fail
    }
}

/// After a look at the `.part` twin, `elapsed_ms` after the first attempt: wait while it is
/// there, up to the limit; without it, try once more as a plain file.
pub fn after_part_check(part: PartFile, elapsed_ms: u64) -> (r: OpenStep)
    ensures
        part == PartFile::Present ==> r == if elapsed_ms >= PART_WAIT_LIMIT_MS {
            OpenStep::GiveUp
        } else {
            OpenStep::Wait
        },
        part == PartFile::Missing ==> r == OpenStep::Retry,
        part == PartFile::Unreadable ==> r == OpenStep::Fail,
{
    match part {
        PartFile::Present => if elapsed_ms >= PART_WAIT_LIMIT_MS {
            OpenStep::GiveUp
        } else {
            OpenStep::Wait
        },
        PartFile::Missing => OpenStep::Retry,
        PartFile::Unreadable => OpenStep::Fail,
    }
}

} // verus!
