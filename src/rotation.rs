use crate::clock::{current_time, CivilTime};
use crate::naming::{
    archive_name_seq, archive_path, archive_path_seq, chars_of, date_seq, date_text, has_prefix,
    index_of_chars, index_of_name, lemma_archive_name_index, tail_of, transient_path, transient_path_seq,
};
use vstd::prelude::*;

verus! {

/// Size in bytes at which the active log file is rotated.
pub const FILE_SIZE_LIMIT: u64 = 50_000_000;

/// Whether a file of `current_size` bytes has reached the rotation threshold.
pub fn should_roll(current_size: u64, threshold: u64) -> (r: bool)
    ensures
        r == (current_size >= threshold),
{
    current_size >= threshold
}

/// The day a rotation count belongs to, and how many rotations that day has seen.
#[derive(Clone, Copy, Debug)]
pub struct RotationState {
    pub day_of_year: u32,
    pub sequence_count: u32,
}

/// Whether one more rotation on `day` can be counted without overflow.
pub open spec fn can_advance(s: RotationState, day: u32) -> bool {
    day != s.day_of_year || s.sequence_count < u32::MAX
}

/// The state after one rotation on `day`.
pub open spec fn advanced(s: RotationState, day: u32) -> RotationState {
    if day != s.day_of_year {
        RotationState { day_of_year: day, sequence_count: 1 }
    } else {
        RotationState { day_of_year: s.day_of_year, sequence_count: (s.sequence_count + 1) as u32 }
    }
}

/// What an archive name contributes to the recovery scan for `date`: when it
/// starts with the date, the index that the rest of the name carries, else 0.
pub open spec fn name_index_for(name: Seq<char>, date: Seq<char>) -> nat {
    if date.is_prefix_of(name) {
        match index_of_name(name.subrange(date.len() as int, name.len() as int)) {
            Some(v) => v as nat,
            None => 0,
        }
    } else {
        0
    }
}

/// The largest index for `date` among the first `i` names (0 if none).
pub open spec fn max_index_upto(names: Seq<Seq<char>>, date: Seq<char>, i: int) -> nat
    decreases i,
{
    if i <= 0 {
        0
    } else {
        let a = max_index_upto(names, date, i - 1);
        let b = name_index_for(names[i - 1], date);
        if b > a {
            b
        } else {
            a
        }
    }
}

/// The largest index for `date` among `names` (0 if none).
pub open spec fn max_index(names: Seq<Seq<char>>, date: Seq<char>) -> nat {
    max_index_upto(names, date, names.len() as int)
}

pub open spec fn names_view(names: Seq<String>) -> Seq<Seq<char>> {
    names.map_values(|s: String| s@)
}

/// The state that a scan of the archive names `names` on `today` recovers.
pub open spec fn recovered_state(names: Seq<Seq<char>>, today: CivilTime) -> RotationState {
    RotationState {
        day_of_year: today.ordinal,
        sequence_count: max_index(names, date_seq(today)) as u32,
    }
}

impl RotationState {
    /// Rebuilds the state from the names of the files in the archive directory:
    /// the day is that of `today`, the count the largest index among the names
    /// that start with today's date (names whose index does not parse are skipped).
    pub fn recover(names: &Vec<String>, today: &CivilTime) -> (r: RotationState)
        requires
            today.wf(),
        ensures
            r == recovered_state(names_view(names@), *today),
            r.sequence_count == max_index(names_view(names@), date_seq(*today)),
    {
        let ghost view = names_view(names@);
        let date = chars_of(date_text(today).as_str());
        let mut max: u32 = 0;
        let mut i: usize = 0;
        while i < names.len()
            invariant
                i <= names@.len(),
                view == names_view(names@),
                date@ == date_seq(*today),
                max as nat == max_index_upto(view, date_seq(*today), i as int),
            decreases names@.len() - i,
        {
            let name = chars_of(names[i].as_str());
            assert(view[i as int] == names@[i as int]@);
            if has_prefix(&name, &date) {
                if let Some(index) = index_of_chars(&tail_of(&name, date.len())) {
                    if index > max {
                        max = index;
                    }
                }
            }
            i = i + 1;
        }
        RotationState { day_of_year: today.ordinal, sequence_count: max }
    }

    /// Counts one rotation on `current_day` and returns its number: 1 on a day
    /// other than the state's, else one more than the count so far.
    pub fn advance(&mut self, current_day: u32) -> (r: u32)
        requires
            can_advance(*old(self), current_day),
        ensures
            *final(self) == advanced(*old(self), current_day),
            r == final(self).sequence_count,
            current_day != old(self).day_of_year ==> r == 1,
            current_day == old(self).day_of_year ==> r == old(self).sequence_count + 1,
            final(self).day_of_year == current_day,
    {
        if current_day != self.day_of_year {
            self.day_of_year = current_day;
            self.sequence_count = 1;
        } else {
            self.sequence_count = self.sequence_count + 1;
        }
        self.sequence_count
    }
}

proof fn lemma_max_index_upto_bound(names: Seq<Seq<char>>, date: Seq<char>, k: int, j: int)
    requires
        0 <= k < j <= names.len(),
    ensures
        max_index_upto(names, date, j) >= name_index_for(names[k], date),
    decreases j,
{
    if k < j - 1 {
        lemma_max_index_upto_bound(names, date, k, j - 1);
    }
}

/// A recovery scan on the day of `t` that sees the archive written for `t`
/// with number `n` recovers a count of at least `n`, so no later rotation
/// that day reuses that number.
pub proof fn lemma_recovery_counts_written_archive(
    names: Seq<Seq<char>>,
    t: CivilTime,
    n: u32,
    i: int,
)
    requires
        0 <= i < names.len(),
        names[i] == archive_name_seq(t, n as nat),
    ensures
        name_index_for(names[i], date_seq(t)) == n,
        max_index(names, date_seq(t)) >= n,
        recovered_state(names, t).sequence_count >= n,
{
    lemma_archive_name_index(t, n);
    lemma_max_index_upto_bound(names, date_seq(t), i, names.len() as int);
    lemma_max_index_fits(names, date_seq(t), names.len() as int);
}

proof fn lemma_max_index_fits(names: Seq<Seq<char>>, date: Seq<char>, j: int)
    ensures
        max_index_upto(names, date, j) <= u32::MAX,
    decreases j,
{
    if j > 0 {
        lemma_max_index_fits(names, date, j - 1);
    }
}

/// A run of states, each one rotation on the day of `t` after the one before,
/// starting from what a scan of `names` recovers on that day, numbers its
/// rotations one past the largest index found, then up by one each time.
pub proof fn lemma_same_day_run(names: Seq<Seq<char>>, t: CivilTime, states: Seq<RotationState>)
    requires
        t.wf(),
        states.len() >= 1,
        states[0] == recovered_state(names, t),
        forall|i: int| 1 <= i < states.len() ==> #[trigger] states[i] == advanced(states[i - 1], t.ordinal),
        max_index(names, date_seq(t)) + states.len() <= u32::MAX,
    ensures
        forall|i: int| 0 <= i < states.len() ==> #[trigger] states[i].sequence_count == max_index(names, date_seq(t)) + i,
        forall|i: int| 0 <= i < states.len() ==> #[trigger] states[i].day_of_year == t.ordinal,
    decreases states.len(),
{
    if states.len() > 1 {
        let init = states.drop_last();
        assert forall|i: int| 1 <= i < init.len() implies #[trigger] init[i] == advanced(init[i - 1], t.ordinal) by {
            assert(states[i] == advanced(states[i - 1], t.ordinal));
        }
        lemma_same_day_run(names, t, init);
        let last = states.len() - 1;
        assert(init[last - 1] == states[last - 1]);
        assert(states[last] == advanced(states[last - 1], t.ordinal));
        assert forall|i: int| 0 <= i < states.len() implies #[trigger] states[i].sequence_count == max_index(names, date_seq(t)) + i
            && states[i].day_of_year == t.ordinal by {
            if i < last {
                assert(init[i] == states[i]);
            }
        }
    } else {
        lemma_max_index_fits(names, date_seq(t), names.len() as int);
    }
}

/// What one rotation does on disk: move the active file to `transient_path`,
/// then compress it into `archive_path`, on a worker thread when `threaded`.
#[derive(Debug)]
pub struct RollPlan {
    pub sequence_number: u32,
    pub transient_path: String,
    pub archive_path: String,
    pub threaded: bool,
    /// The reading of the clock the rotation was counted and named at.
    pub rolled_at: CivilTime,
}

/// Rolls the active log file into dated, numbered archives.
#[derive(Clone, Copy, Debug)]
pub struct CustomLogRoller {
    pub name_info: RotationState,
    /// The reading of the clock the state was recovered at.
    pub recovered_at: CivilTime,
}

impl CustomLogRoller {
    /// A roller for today, recovered from the names in the archive directory.
    pub fn new(archive_names: &Vec<String>) -> (r: CustomLogRoller)
        ensures
            r.recovered_at.wf(),
            r.name_info == recovered_state(names_view(archive_names@), r.recovered_at),
    {
        let now = current_time();
        let name_info = RotationState::recover(archive_names, &now);
        CustomLogRoller { name_info, recovered_at: now }
    }

    /// Counts a rotation at `now` and says where the active file goes.
    pub fn plan_roll(&mut self, now: &CivilTime, threaded: bool) -> (r: RollPlan)
        requires
            now.wf(),
            can_advance(old(self).name_info, now.ordinal),
        ensures
            final(self).name_info == advanced(old(self).name_info, now.ordinal),
            final(self).recovered_at == old(self).recovered_at,
            r.sequence_number == final(self).name_info.sequence_count,
            r.transient_path@ == transient_path_seq(),
            r.archive_path@ == archive_path_seq(*now, r.sequence_number as nat),
            r.threaded == threaded,
            r.rolled_at == *now,
    {
        let n = self.name_info.advance(now.ordinal);
        RollPlan {
            sequence_number: n,
            transient_path: transient_path(),
            archive_path: archive_path(now, n),
            threaded,
            rolled_at: *now,
        }
    }

    /// Counts a rotation now and says where the active file goes.
    pub fn roll_threaded(&mut self, threaded: bool) -> (r: RollPlan)
        requires
            old(self).name_info.sequence_count < u32::MAX,
        ensures
            r.rolled_at.wf(),
            final(self).name_info == advanced(old(self).name_info, r.rolled_at.ordinal),
            final(self).recovered_at == old(self).recovered_at,
            r.sequence_number == final(self).name_info.sequence_count,
            r.transient_path@ == transient_path_seq(),
            r.archive_path@ == archive_path_seq(r.rolled_at, r.sequence_number as nat),
            r.threaded == threaded,
    {
        let now = current_time();
        self.plan_roll(&now, threaded)
    }
}

} // verus!
