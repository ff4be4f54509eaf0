//! The history log: the lines entered so far, oldest first, and the walk
//! through them that the arrow keys make.

use vstd::prelude::*;
use crate::text::{push_char, strings};

verus! {

/// Where a walk through the log stands.
#[derive(Clone, Copy, Debug, PartialEq, Eq, Structural)]
pub enum Recall {
    /// Below the newest record: nothing has been recalled.
    Fresh,
    /// On the record that many places before the newest.
    At(usize),
    /// Above the oldest record.
    Past,
}

/// The record `n` places before the newest, if the log reaches that far.
pub open spec fn nth_from_end(entries: Seq<Seq<char>>, n: int) -> Option<Seq<char>> {
    if 0 <= n < entries.len() {
        Some(entries[entries.len() - 1 - n])
    } else {
        None
    }
}

/// The text that stores the records: each one followed by a line feed.
pub open spec fn serialized(entries: Seq<Seq<char>>) -> Seq<char>
    decreases entries.len(),
{
    if entries.len() == 0 {
        Seq::empty()
    } else {
        serialized(entries.drop_last()) + entries.last() + seq!['\n']
    }
}

/// The first place from `k` on, going towards older records, whose record
/// differs from `shown`; the length of the log when there is none.
pub open spec fn distinct_older(entries: Seq<Seq<char>>, shown: Seq<char>, k: int) -> int
    decreases entries.len() - k,
{
    if k < 0 || k >= entries.len() {
        entries.len() as int
    } else if entries[entries.len() - 1 - k] != shown {
        k
    } else {
        distinct_older(entries, shown, k + 1)
    }
}

/// One more than the first place below `k`, going towards newer records,
/// whose record differs from `shown`; zero when there is none.
pub open spec fn distinct_newer(entries: Seq<Seq<char>>, shown: Seq<char>, k: int) -> int
    decreases k,
{
    if k <= 0 || k > entries.len() {
        0
    } else if entries[entries.len() - k] != shown {
        k
    } else {
        distinct_newer(entries, shown, k - 1)
    }
}

/// The place from which a step towards older records starts looking.
pub open spec fn older_start(entries: Seq<Seq<char>>, at: Recall) -> int {
    match at {
        Recall::Fresh => 0,
        Recall::At(i) => if i < entries.len() { i + 1 } else { entries.len() as int },
        Recall::Past => entries.len() as int,
    }
}

/// One more than the place from which a step towards newer records starts
/// looking.
pub open spec fn newer_start(entries: Seq<Seq<char>>, at: Recall) -> int {
    match at {
        Recall::Fresh => 0,
        Recall::At(i) => if i < entries.len() { i as int } else { entries.len() as int },
        Recall::Past => entries.len() as int,
    }
}

/// A step towards older records while `shown` is on the line: the walk goes
/// to the nearest older record that differs from `shown` and shows it.
/// When there is none it goes above the oldest record and shows an empty
/// line.
pub open spec fn step_older(entries: Seq<Seq<char>>, at: Recall, shown: Seq<char>) -> (Recall, Seq<char>) {
    let j = distinct_older(entries, shown, older_start(entries, at));
    if j < entries.len() {
        (Recall::At(j as usize), entries[entries.len() - 1 - j])
    } else {
        (Recall::Past, Seq::empty())
    }
}

/// A step towards newer records while `shown` is on the line: the walk goes
/// to the nearest newer record that differs from `shown` and shows it.
/// When there is none it goes below the newest record and shows an empty
/// line.
pub open spec fn step_newer(entries: Seq<Seq<char>>, at: Recall, shown: Seq<char>) -> (Recall, Seq<char>) {
    let j = distinct_newer(entries, shown, newer_start(entries, at));
    if j > 0 {
        (Recall::At((j - 1) as usize), entries[entries.len() - j])
    } else {
        (Recall::Fresh, Seq::empty())
    }
}

/// The log of lines entered, oldest first.
pub struct History {
    /// The records, oldest first.
    pub records: Vec<String>,
    /// How many of the records, counted from the oldest, have been stored
    /// already.
    pub loaded: usize,
}

/// A log without records.
pub fn init() -> (h: History)
    ensures
        h.wf(),
        h.entries() == Seq::<Seq<char>>::empty(),
        h.loaded == 0,
{
    let h = History { records: Vec::new(), loaded: 0 };
    assert(h.entries() =~= Seq::<Seq<char>>::empty());
    h
}

/// How many records the log holds.
pub fn get_lines_num(history: &History) -> (n: usize)
    ensures
        n == history.entries().len(),
{
    history.records.len()
}

impl History {
    /// No more records count as stored than there are.
    pub open spec fn wf(&self) -> bool {
        self.loaded <= self.records@.len()
    }

    /// The records, oldest first.
    pub open spec fn entries(&self) -> Seq<Seq<char>> {
        strings(self.records@)
    }

    /// The records that have not been stored yet.
    pub open spec fn unsaved(&self) -> Seq<Seq<char>> {
        self.entries().skip(self.loaded as int)
    }

    /// The log that a store holds, from its records as they are read back:
    /// newest first.
    pub fn restore(recent_first: Vec<String>) -> (h: History)
        ensures
            h.wf(),
            h.entries() == strings(recent_first@).reverse(),
            h.loaded == recent_first@.len(),
    {
        let mut source = recent_first;
        let mut records: Vec<String> = Vec::new();
        let ghost all = strings(source@);
        let total = source.len();
        while source.len() > 0
            invariant
                source.len() + records.len() == total,
                total == all.len(),
                strings(source@) == all.take(source.len() as int),
                strings(records@) == all.skip(source.len() as int).reverse(),
            decreases source.len(),
        {
            let ghost before = source@;
            let ghost had = records@;
            let last = source.pop();
            match last {
                Some(s) => {
                    records.push(s);
                    assert(strings(source@) =~= all.take(source.len() as int)) by {
                        assert(strings(source@) =~= strings(before).drop_last());
                    }
                    assert(strings(records@) =~= all.skip(source.len() as int).reverse()) by {
                        assert(strings(records@) =~= strings(had).push(s@));
                        assert(s@ == strings(before).last());
                    }
                },
                None => {},
            }
        }
        assert(strings(records@) =~= all.reverse());
        History { records, loaded: total }
    }

    /// Adds one record behind the newest.
    pub fn add_to_string(&mut self, s: String)
        requires
            old(self).wf(),
        ensures
            final(self).wf(),
            final(self).entries() == old(self).entries().push(s@),
            final(self).loaded == old(self).loaded,
    {
        self.records.push(s);
        assert(self.entries() =~= old(self).entries().push(s@));
    }

    /// The text to add to the store: the records that it does not hold yet,
    /// each followed by a line feed.
    pub fn write_history(&self) -> (text: String)
        requires
            self.wf(),
        ensures
            text@ == serialized(self.unsaved()),
    {
        let mut text = String::new();
        let mut i: usize = self.loaded;
        assert(self.unsaved().take(0) =~= Seq::<Seq<char>>::empty());
        while i < self.records.len()
            invariant
                self.loaded <= i <= self.records.len(),
                text@ == serialized(self.unsaved().take(i - self.loaded)),
            decreases self.records.len() - i,
        {
            text.append(self.records[i].as_str());
            push_char(&mut text, '\n');
            proof {
                let done = self.unsaved().take(i + 1 - self.loaded);
                assert(done.drop_last() =~= self.unsaved().take(i - self.loaded));
                assert(done.last() == self.records[i as int]@);
            }
            i += 1;
        }
        assert(self.unsaved().take(i - self.loaded) =~= self.unsaved());
        text
    }

    /// The record `pos` places before the newest, or nothing when the log
    /// does not reach that far.
    pub fn get_history(&self, pos: i32) -> (r: Option<String>)
        ensures
            r is Some <==> 0 <= pos < self.entries().len(),
            r matches Some(s) ==> nth_from_end(self.entries(), pos as int) == Some(s@),
    {
        let n = self.records.len();
        if pos < 0 || pos as usize >= n {
            return None;
        }
        Some(self.records[n - 1 - pos as usize].clone())
    }

    /// A step towards older records, as the Up key makes it, while `shown`
    /// is on the line.
    pub fn older(&self, at: Recall, shown: &String) -> (r: (Recall, String))
        ensures
            (r.0, r.1@) == step_older(self.entries(), at, shown@),
    {
        let n = self.records.len();
        let mut k: usize = match at {
            Recall::Fresh => 0,
            Recall::At(i) => if i < n { i + 1 } else { n },
            Recall::Past => n,
        };
        let ghost start = k;
        while k < n && self.records[n - 1 - k] == *shown
            invariant
                n == self.records.len(),
                k <= n,
                distinct_older(self.entries(), shown@, k as int) == distinct_older(
                    self.entries(),
                    shown@,
                    start as int,
                ),
            decreases n - k,
        {
            k += 1;
        }
        if k < n {
            (Recall::At(k), self.records[n - 1 - k].clone())
        } else {
            (Recall::Past, String::new())
        }
    }

    /// A step towards newer records, as the Down key makes it, while `shown`
    /// is on the line.
    pub fn newer(&self, at: Recall, shown: &String) -> (r: (Recall, String))
        ensures
            (r.0, r.1@) == step_newer(self.entries(), at, shown@),
    {
        let n = self.records.len();
        let mut k: usize = match at {
            Recall::Fresh => 0,
            Recall::At(i) => if i < n { i } else { n },
            Recall::Past => n,
        };
        let ghost start = k;
        while k > 0 && self.records[n - k] == *shown
            invariant
                n == self.records.len(),
                k <= n,
                distinct_newer(self.entries(), shown@, k as int) == distinct_newer(
                    self.entries(),
                    shown@,
                    start as int,
                ),
            decreases k,
        {
            k -= 1;
        }
        if k > 0 {
            (Recall::At(k - 1), self.records[n - k].clone())
        } else {
            (Recall::Fresh, String::new())
        }
    }
}

/// Records added to a log come back newest first: the record added last is
/// the one no places before the newest, the one added before it is one
/// place before, and so on back to the first one added.
pub proof fn lemma_round_trip(log: Seq<Seq<char>>, added: Seq<Seq<char>>, i: int)
    requires
        0 <= i < added.len(),
    ensures
        nth_from_end(log + added, i) == Some(added[added.len() - 1 - i]),
{
}

/// The search towards older records stops on a record that differs from
/// the line shown, and has passed over none that differs.
pub proof fn lemma_distinct_older(entries: Seq<Seq<char>>, shown: Seq<char>, k: int)
    requires
        0 <= k <= entries.len(),
    ensures
        k <= distinct_older(entries, shown, k) <= entries.len(),
        distinct_older(entries, shown, k) < entries.len() ==> entries[entries.len() - 1 - distinct_older(
            entries,
            shown,
            k,
        )] != shown,
        forall|j: int|
            k <= j < distinct_older(entries, shown, k) ==> #[trigger] entries[entries.len() - 1 - j] == shown,
    decreases entries.len() - k,
{
    if k < entries.len() && entries[entries.len() - 1 - k] == shown {
        lemma_distinct_older(entries, shown, k + 1);
    }
}

/// The search towards newer records stops on a record that differs from
/// the line shown, and has passed over none that differs.
pub proof fn lemma_distinct_newer(entries: Seq<Seq<char>>, shown: Seq<char>, k: int)
    requires
        0 <= k <= entries.len(),
    ensures
        0 <= distinct_newer(entries, shown, k) <= k,
        distinct_newer(entries, shown, k) > 0 ==> entries[entries.len() - distinct_newer(entries, shown, k)]
            != shown,
        forall|j: int|
            distinct_newer(entries, shown, k) < j <= k ==> #[trigger] entries[entries.len() - j] == shown,
    decreases k,
{
    if k > 0 && entries[entries.len() - k] == shown {
        lemma_distinct_newer(entries, shown, k - 1);
    }
}

/// With nothing recalled yet, a step towards older records shows the
/// newest record, unless that record is what the line shows already.
pub proof fn lemma_first_step_older(entries: Seq<Seq<char>>, shown: Seq<char>)
    requires
        0 < entries.len() <= usize::MAX,
        entries.last() != shown,
    ensures
        step_older(entries, Recall::Fresh, shown) == (Recall::At(0), entries.last()),
{
}

/// A step towards older records never shows what the line showed before
/// it. So while the line shows the record that the walk stands on, the
/// record that a step arrives at differs from the record one place below
/// it.
pub proof fn lemma_step_older_differs(entries: Seq<Seq<char>>, at: Recall, shown: Seq<char>)
    requires
        entries.len() <= usize::MAX,
        at matches Recall::At(i) ==> nth_from_end(entries, i as int) == Some(shown),
    ensures
        step_older(entries, at, shown).0 matches Recall::At(j) ==> {
            &&& j < entries.len()
            &&& step_older(entries, at, shown).1 == entries[entries.len() - 1 - j]
            &&& step_older(entries, at, shown).1 != shown
            &&& j >= 1 ==> entries[entries.len() - 1 - j] != entries[entries.len() - j]
        },
{
    let start = older_start(entries, at);
    lemma_distinct_older(entries, shown, start);
    let j = distinct_older(entries, shown, start);
    if 1 <= j < entries.len() {
        if j - 1 >= start {
            assert(entries[entries.len() - 1 - (j - 1)] == shown);
        } else {
            assert(at matches Recall::At(i) && i == j - 1);
        }
        assert(entries[entries.len() - j] == shown);
    }
}

/// A step towards newer records from the oldest record, with that record
/// on the line, ends on the empty line exactly when every newer record is
/// the same as the oldest; from the newest record it always does.
pub proof fn lemma_step_newer_to_empty(entries: Seq<Seq<char>>)
    requires
        0 < entries.len() <= usize::MAX,
    ensures
        step_newer(entries, Recall::At((entries.len() - 1) as usize), entries[0]) == (
            Recall::Fresh,
            Seq::<char>::empty(),
        ) <==> (forall|i: int| 0 <= i < entries.len() ==> #[trigger] entries[i] == entries[0]),
        forall|shown: Seq<char>| #[trigger]
            step_newer(entries, Recall::At(0), shown) == (Recall::Fresh, Seq::<char>::empty()),
{
    let n = entries.len();
    lemma_distinct_newer(entries, entries[0], n - 1);
    let j = distinct_newer(entries, entries[0], n - 1);
    if j == 0 {
        assert forall|i: int| 0 <= i < n implies #[trigger] entries[i] == entries[0] by {
            if i > 0 {
                assert(entries[n - (n - i)] == entries[0]);
            }
        }
    } else {
        assert(entries[n - j] != entries[0]);
    }
}

} // verus!
