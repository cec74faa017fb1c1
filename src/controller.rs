//! The decisions of one reconciliation tick: the state the engine should be in, what to do
//! with each torrent, and in which order to delete torrents when the disk is too full.
use vstd::prelude::*;

use crate::consumer::path_segments;
use crate::rpc::{Torrent, TorrentStatus};
use crate::text::same_text;

verus! {

/// What the schedule's periods mean.
#[derive(Debug, Clone, Copy, PartialEq, Eq, Structural)]
pub enum Action {
    /// Torrents run inside the periods and pause outside them.
    StartOrPause,
    /// Torrents pause inside the periods and run outside them.
    PauseOrStart,
}

impl Action {
    /// The name of the action on the command line.
    pub fn name(&self) -> (r: &'static str)
        ensures
            r@ == action_name(*self),
    {
        match self {
            Action::StartOrPause => "start-or-pause",
            Action::PauseOrStart => "pause-or-start",
        }
    }

    /// The action a command-line name stands for.
    pub fn from_name(name: &str) -> (r: Option<Action>)
        ensures
            r matches Some(a) ==> action_name(a) == name@,
            r is None ==> name@ != action_name(Action::StartOrPause) && name@ != action_name(
                Action::PauseOrStart,
            ),
    {
        if same_text(name, "start-or-pause") {
            Some(Action::StartOrPause)
        } else if same_text(name, "pause-or-start") {
            Some(Action::PauseOrStart)
        } else {
            None
        }
    }
}

pub open spec fn action_name(a: Action) -> Seq<char> {
    match a {
        Action::StartOrPause => "start-or-pause"@,
        Action::PauseOrStart => "pause-or-start"@,
    }
}

/// The state the engine's torrents should be in.
#[derive(Debug, Clone, Copy, PartialEq, Eq, Structural)]
pub enum State {
    Active,
    Paused,
    /// The user took over: no torrent is started or stopped.
    Manual,
}

/// How long the engine's manual mode is left alone before it is switched off.
pub const MANUAL_MODE_TIMEOUT_SECS: u64 = 86400;

/// The state an action and the schedule ask for.
pub open spec fn scheduled_state(action: Action, inside: bool) -> State {
    match action {
        Action::StartOrPause => if inside {
            State::Active
        } else {
            State::Paused
        },
        Action::PauseOrStart => if inside {
            State::Paused
        } else {
            State::Active
        },
    }
}

pub fn schedule_state(action: Action, inside: bool) -> (r: State)
    ensures
        r == scheduled_state(action, inside),
{
    match action {
        Action::StartOrPause => if inside {
            State::Active
        } else {
            State::Paused
        },
        Action::PauseOrStart => if inside {
            State::Paused
        } else {
            State::Active
        },
    }
}

/// What to do about the engine's manual mode.
#[derive(Debug, Clone, Copy, PartialEq, Eq, Structural)]
pub enum ManualStep {
    /// Stay in the manual state; the user took over at the given moment.
    Stay(u64),
    /// The manual mode has lasted too long: switch it off, then follow the schedule.
    Reset,
    /// Follow the schedule; no manual mode is under way.
    Schedule,
}

/// Decides on the engine's manual mode. `since` is when this daemon first saw it on, `now`
/// the present moment of a monotonic clock, in seconds.
pub fn manual_step(manual: bool, since: Option<u64>, now: u64, timeout: u64) -> (r: ManualStep)
    ensures
        !manual ==> r == ManualStep::Schedule,
        manual && since is None ==> r == ManualStep::Stay(now),
        manual && since is Some ==> r == if now < since->0 || now - since->0 < timeout {
            ManualStep::Stay(since->0)
        } else {
            ManualStep::Reset
        },
{
    if !manual {
        return ManualStep::Schedule;
    }
    match since {
        None => ManualStep::Stay(now),
        Some(t) => if now < t || now - t < timeout {
            ManualStep::Stay(t)
        } else {
            ManualStep::Reset
        },
    }
}

/// A command for a torrent's running state.
#[derive(Debug, Clone, Copy, PartialEq, Eq, Structural)]
pub enum Command {
    Start,
    Stop,
    Nothing,
}

/// The command that brings a torrent's status in line with the state.
pub open spec fn command_for(state: State, status: TorrentStatus) -> Command {
    if status == TorrentStatus::Paused && state == State::Active {
        Command::Start
    } else if status != TorrentStatus::Paused && state == State::Paused {
        Command::Stop
    } else {
        Command::Nothing
    }
}

pub fn torrent_command(state: State, status: TorrentStatus) -> (r: Command)
    ensures
        r == command_for(state, status),
{
    if status == TorrentStatus::Paused && state == State::Active {
        Command::Start
    } else if status != TorrentStatus::Paused && state == State::Paused {
        Command::Stop
    } else {
        Command::Nothing
    }
}

/// What becomes of a torrent after its command.
#[derive(Debug, Clone, Copy, PartialEq, Eq, Structural)]
pub enum Disposal {
    /// Not downloaded yet, or being consumed now.
    Skip,
    /// Downloaded and not processed: hand it to the consumer.
    Consume,
    /// Processed and past a seeding limit: delete it.
    Remove,
    /// Processed and within its limits: a candidate for deletion when the disk is full.
    Keep,
}

/// The limits that end seeding.
pub struct SeedLimits {
    /// Seconds of seeding after a torrent is done.
    pub seed_time: Option<i64>,
    /// Upload ratio, in thousandths.
    pub upload_ratio: Option<u64>,
}

pub open spec fn seed_time_over(t: Torrent, limits: SeedLimits, now: i64) -> bool {
    limits.seed_time is Some && t.done_time is Some && now - t.done_time->0 >= limits.seed_time->0
}

pub open spec fn ratio_over(t: Torrent, limits: SeedLimits) -> bool {
    limits.upload_ratio is Some && t.upload_ratio is Some && t.upload_ratio->0 >= limits.upload_ratio->0
}

/// The disposal of a torrent in a tick.
pub open spec fn disposal_of(t: Torrent, in_process: bool, limits: SeedLimits, now: i64) -> Disposal {
    if !t.done || in_process {
        Disposal::Skip
    } else if !t.processed {
        Disposal::Consume
    } else if seed_time_over(t, limits, now) || ratio_over(t, limits) {
        Disposal::Remove
    } else {
        Disposal::Keep
    }
}

/// Decides what becomes of a torrent; `in_process` tells whether the consumer holds it and
/// `now` is the wall clock in seconds.
pub fn torrent_disposal(t: &Torrent, in_process: bool, limits: &SeedLimits, now: i64) -> (r: Disposal)
    ensures
        r == disposal_of(*t, in_process, *limits, now),
{
    if !t.done || in_process {
        return Disposal::Skip;
    }
    if !t.processed {
        return Disposal::Consume;
    }
    if let (Some(limit), Some(dt)) = (limits.seed_time, t.done_time) {
        if now as i128 - dt as i128 >= limit as i128 {
            return Disposal::Remove;
        }
    }
    if let (Some(limit), Some(r)) = (limits.upload_ratio, t.upload_ratio) {
        if r >= limit {
            return Disposal::Remove;
        }
    }
    Disposal::Keep
}

/// Whether the disk needs room: the free share, `100 - usage`, is at or under `threshold`.
pub fn needs_cleanup(usage: u8, threshold: u8) -> (r: bool)
    requires
        usage <= 100,
    ensures
        r == (100 - usage <= threshold),
{
    100 - usage <= threshold
}

// ----- the order of deletion -----
/// The components of a path as a path comparison sees them: whether it starts at the root,
/// whether it starts with `.`, and its segments without empty and `.` ones.
pub open spec fn path_key(s: Seq<char>) -> (bool, bool, Seq<Seq<char>>) {
    let rooted = s.len() > 0 && s[0] == '/';
    let segs = path_segments(s);
    (rooted, !rooted && segs[0] == seq!['.'], segs.filter(|c: Seq<char>| c.len() > 0 && c != seq!['.']))
}

/// The key torrents are deleted by: the time they were done, unknown ones last.
pub open spec fn done_key(t: Torrent) -> i64 {
    match t.done_time {
        Some(d) => d,
        None => i64::MAX,
    }
}

/// `s` with `x` inserted after every element whose key is not greater: a stable insertion.
pub open spec fn insert_by_key(s: Seq<(i64, usize)>, x: (i64, usize)) -> Seq<(i64, usize)>
    decreases s.len(),
{
    if s.len() == 0 {
        seq![x]
    } else if s.last().0 <= x.0 {
        s.push(x)
    } else {
        insert_by_key(s.drop_last(), x).push(s.last())
    }
}

/// The first `n` candidates that live in `dir`, keyed and sorted stably by key.
pub open spec fn deletion_order(ts: Seq<Torrent>, cands: Seq<usize>, dir: Seq<char>, n: int) -> Seq<(i64, usize)>
    decreases n,
{
    if n <= 0 {
        Seq::empty()
    } else {
        let l = deletion_order(ts, cands, dir, n - 1);
        let i = cands[n - 1] as int;
        if 0 <= i < ts.len() && path_key(ts[i].download_dir@) == path_key(dir) {
            insert_by_key(l, (done_key(ts[i]), i as usize))
        } else {
            l
        }
    }
}

fn insert_key(v: &mut Vec<(i64, usize)>, x: (i64, usize))
    ensures
        final(v)@ == insert_by_key(old(v)@, x),
{
    let ghost s = v@;
    let mut k = v.len();
    assert(s.subrange(0, s.len() as int) =~= s);
    assert(insert_by_key(s, x) =~= insert_by_key(s.subrange(0, k as int), x) + s.subrange(
        k as int,
        s.len() as int,
    ));
    while k > 0 && v[k - 1].0 > x.0
        invariant
            k <= s.len(),
            v@ == s,
            insert_by_key(s, x) == insert_by_key(s.subrange(0, k as int), x) + s.subrange(
                k as int,
                s.len() as int,
            ),
        decreases k,
    {
        proof {
            let pre = s.subrange(0, k as int);
            assert(pre.drop_last() =~= s.subrange(0, k - 1));
            assert(pre.last() == s[k - 1]);
            assert(insert_by_key(pre.drop_last(), x).push(s[k - 1]) + s.subrange(
                k as int,
                s.len() as int,
            ) =~= insert_by_key(s.subrange(0, k - 1), x) + s.subrange(k - 1, s.len() as int));
        }
        k = k - 1;
    }
    proof {
        let pre = s.subrange(0, k as int);
        if k == 0 {
            assert(pre =~= Seq::<(i64, usize)>::empty());
            assert(s.insert(0, x) =~= seq![x] + s.subrange(0, s.len() as int));
        } else {
            assert(pre.last() == s[k - 1]);
            assert(s.insert(k as int, x) =~= pre.push(x) + s.subrange(k as int, s.len() as int));
        }
    }
    v.insert(k, x);
}

/// Whether two paths name the same place component by component, as `Path` equality does.
pub fn same_path(a: &str, b: &str) -> (r: bool)
    ensures
        r == (path_key(a@) == path_key(b@)),
{
    let ka = path_key_of(a);
    let kb = path_key_of(b);
    if ka.0 != kb.0 || ka.1 != kb.1 || ka.2.len() != kb.2.len() {
        return false;
    }
    let mut i: usize = 0;
    while i < ka.2.len()
        invariant
            i <= ka.2@.len(),
            ka.2@.len() == kb.2@.len(),
            ka.2@.len() == path_key(a@).2.len(),
            kb.2@.len() == path_key(b@).2.len(),
            forall|j: int| 0 <= j < ka.2@.len() ==> (#[trigger] ka.2@[j])@ == path_key(a@).2[j],
            forall|j: int| 0 <= j < kb.2@.len() ==> (#[trigger] kb.2@[j])@ == path_key(b@).2[j],
            forall|j: int| 0 <= j < i ==> (#[trigger] ka.2@[j])@ == kb.2@[j]@,
        decreases ka.2.len() - i,
    {
        if !same_text(ka.2[i].as_str(), kb.2[i].as_str()) {
            assert(path_key(a@).2[i as int] != path_key(b@).2[i as int]);
            return false;
        }
        i = i + 1;
    }
    assert forall|j: int| 0 <= j < path_key(a@).2.len() implies path_key(a@).2[j] == path_key(
        b@,
    ).2[j] by {
        assert(ka.2@[j]@ == kb.2@[j]@);
    }
    assert(path_key(a@).2 =~= path_key(b@).2);
    true
}

/// The components of a path, as `path_key` states them.
fn path_key_of(s: &str) -> (r: (bool, bool, Vec<String>))
    ensures
        r.0 == path_key(s@).0,
        r.1 == path_key(s@).1,
        r.2@.len() == path_key(s@).2.len(),
        forall|j: int| 0 <= j < r.2@.len() ==> (#[trigger] r.2@[j])@ == path_key(s@).2[j],
{
    let segments = crate::consumer::split_path(s);
    let ghost segs = path_segments(s@);
    let ghost pred = |c: Seq<char>| c.len() > 0 && c != seq!['.'];
    proof {
        crate::consumer::lemma_segments_nonempty(s@);
        reveal(Seq::filter);
        reveal_strlit(".");
        assert(".".view() =~= seq!['.']);
        assert(segs.subrange(0, 0).filter(pred) =~= Seq::<Seq<char>>::empty());
    }
    let rooted = s.unicode_len() > 0 && s.get_char(0) == '/';
    let dot = !rooted && same_text(segments[0].as_str(), ".");
    let mut kept: Vec<String> = Vec::new();
    let mut i: usize = 0;
    while i < segments.len()
        invariant
            i <= segments@.len(),
            segments@.len() == segs.len(),
            segs == path_segments(s@),
            forall|j: int| 0 <= j < segs.len() ==> (#[trigger] segments@[j])@ == segs[j],
            pred == |c: Seq<char>| c.len() > 0 && c != seq!['.'],
            ".".view() == seq!['.'],
            kept@.len() == segs.subrange(0, i as int).filter(pred).len(),
            forall|j: int|
                0 <= j < kept@.len() ==> (#[trigger] kept@[j])@ == segs.subrange(0, i as int).filter(
                    pred,
                )[j],
        decreases segments.len() - i,
    {
        let seg = segments[i].as_str();
        proof {
            reveal(Seq::filter);
            assert(segs.subrange(0, i + 1).drop_last() =~= segs.subrange(0, i as int));
            assert(segs.subrange(0, i + 1).last() == segs[i as int]);
            assert(seg@ == segs[i as int]);
        }
        if seg.unicode_len() > 0 && !same_text(seg, ".") {
            assert(pred(seg@));
            kept.push(String::from_str(seg));
        } else {
            assert(!pred(seg@));
        }
        i = i + 1;
    }
    assert(segs.subrange(0, segs.len() as int) =~= segs);
    (rooted, dot, kept)
}

/// The candidates, given as indices into `torrents`, that live in `download_dir`, in the
/// order to delete them: the earliest done first, those with no done time last, ties in
/// the given order. Each entry is the key and the index.
pub fn cleanup_order(torrents: &Vec<Torrent>, candidates: &Vec<usize>, download_dir: &str) -> (r: Vec<(i64, usize)>)
    ensures
        r@ == deletion_order(torrents@, candidates@, download_dir@, candidates@.len() as int),
{
    let mut order: Vec<(i64, usize)> = Vec::new();
    let mut k: usize = 0;
    while k < candidates.len()
        invariant
            k <= candidates@.len(),
            order@ == deletion_order(torrents@, candidates@, download_dir@, k as int),
        decreases candidates.len() - k,
    {
        let i = candidates[k];
        if i < torrents.len() && same_path(torrents[i].download_dir.as_str(), download_dir) {
            let key = match torrents[i].done_time {
                Some(d) => d,
                None => i64::MAX,
            };
            insert_key(&mut order, (key, i));
        }
        k = k + 1;
    }
    order
}

/// A deletion order is sorted by key.
pub proof fn lemma_deletion_order_sorted(ts: Seq<Torrent>, cands: Seq<usize>, dir: Seq<char>, n: int)
    requires
        0 <= n <= cands.len(),
    ensures
        forall|a: int, b: int|
            0 <= a < b < deletion_order(ts, cands, dir, n).len() ==> (#[trigger] deletion_order(
                ts,
                cands,
                dir,
                n,
            )[a]).0 <= (#[trigger] deletion_order(ts, cands, dir, n)[b]).0,
    decreases n,
{
    if n > 0 {
        lemma_deletion_order_sorted(ts, cands, dir, n - 1);
        let l = deletion_order(ts, cands, dir, n - 1);
        let i = cands[n - 1] as int;
        if 0 <= i < ts.len() {
            lemma_insert_by_key_sorted(l, (done_key(ts[i]), i as usize));
        }
    }
}

pub open spec fn sorted_keys(s: Seq<(i64, usize)>) -> bool {
    forall|a: int, b: int| 0 <= a < b < s.len() ==> (#[trigger] s[a]).0 <= (#[trigger] s[b]).0
}

proof fn lemma_insert_by_key_sorted(s: Seq<(i64, usize)>, x: (i64, usize))
    requires
        sorted_keys(s),
    ensures
        sorted_keys(insert_by_key(s, x)),
        insert_by_key(s, x).len() == s.len() + 1,
        forall|a: int|
            0 <= a < insert_by_key(s, x).len() ==> (#[trigger] insert_by_key(s, x)[a]).0 <= if s.len()
                > 0 && s.last().0 > x.0 {
                s.last().0
            } else {
                x.0
            },
    decreases s.len(),
{
    if s.len() == 0 {
    } else if s.last().0 <= x.0 {
        assert forall|a: int| 0 <= a < s.len() implies (#[trigger] s[a]).0 <= x.0 by {
            if a < s.len() - 1 {
                assert(s[a].0 <= s[s.len() - 1].0);
            }
        }
    } else {
        let t = s.drop_last();
        assert(sorted_keys(t)) by {
            assert forall|a: int, b: int| 0 <= a < b < t.len() implies (#[trigger] t[a]).0 <= (
            #[trigger] t[b]).0 by {
                assert(t[a] == s[a] && t[b] == s[b]);
            }
        }
        lemma_insert_by_key_sorted(t, x);
        let r = insert_by_key(t, x);
        assert forall|a: int| 0 <= a < r.len() implies (#[trigger] r[a]).0 <= s.last().0 by {
            if t.len() > 0 && t.last().0 > x.0 {
                assert(t.last() == s[s.len() - 2]);
                assert(s[s.len() - 2].0 <= s[s.len() - 1].0);
            }
        }
    }
}

// ----- command-line options -----
/// Why the options of the command line do not go together.
#[derive(Debug, PartialEq, Eq)]
pub enum OptionsError {
    /// An action was given without periods.
    ActionWithoutPeriods,
    /// Periods were given without an action.
    PeriodsWithoutAction,
    /// The action's name is none of the known ones.
    UnknownAction(String),
    /// The free space threshold is above 100 percent.
    InvalidThreshold(u8),
    /// An email recipient was given without a sender.
    RecipientWithoutSender,
}

/// Checks the options that go together: an action needs periods and periods need an
/// action; a threshold is a percentage; email recipients need a sender. Returns the action.
pub fn check_options(
    action: Option<&str>,
    has_periods: bool,
    free_space_threshold: Option<u8>,
    has_sender: bool,
    has_recipient: bool,
) -> (r: Result<Option<Action>, OptionsError>)
    ensures
        action is None && has_periods ==> r == Err::<Option<Action>, OptionsError>(
            OptionsError::PeriodsWithoutAction,
        ),
        action matches Some(name) ==> (name@ != action_name(Action::StartOrPause) && name@
            != action_name(Action::PauseOrStart) ==> (r matches Err(OptionsError::UnknownAction(
            n,
        )) && n@ == name@)),
        action matches Some(name) ==> ((name@ == action_name(Action::StartOrPause) || name@
            == action_name(Action::PauseOrStart)) && !has_periods ==> r == Err::<
            Option<Action>,
            OptionsError,
        >(OptionsError::ActionWithoutPeriods)),
        r matches Ok(a) ==> {
            &&& (action is None <==> a is None)
            &&& (a matches Some(x) ==> action_name(x) == action->0@ && has_periods)
            &&& (action is None ==> !has_periods)
            &&& (free_space_threshold matches Some(t) ==> t <= 100)
            &&& (has_recipient ==> has_sender)
        },
        (action is None ==> !has_periods) && (action matches Some(name) ==> ((name@ == action_name(
            Action::StartOrPause,
        ) || name@ == action_name(Action::PauseOrStart)) && has_periods)) && (
        free_space_threshold matches Some(t) ==> t <= 100) && (has_recipient ==> has_sender)
            ==> r is Ok,
{
    let chosen = match action {
        Some(name) => match Action::from_name(name) {
            Some(a) => {
                if !has_periods {
                    return Err(OptionsError::ActionWithoutPeriods);
                }
                Some(a)
            },
            None => {
                return Err(OptionsError::UnknownAction(String::from_str(name)));
            },
        },
        None => {
            if has_periods {
                return Err(OptionsError::PeriodsWithoutAction);
            }
            None
        },
    };
    if let Some(t) = free_space_threshold {
        if t > 100 {
            return Err(OptionsError::InvalidThreshold(t));
        }
    }
    if has_recipient && !has_sender {
        return Err(OptionsError::RecipientWithoutSender);
    }
    Ok(chosen)
}

} // verus!
