//! Per-sender tallies by hour of day and by day of week.
use vstd::prelude::*;
use vstd::string::*;
use crate::external::{csv_records_of, date_of_text, parse_date, read_csv_records};
use crate::text::{chars_of, find, first_occurrence};

verus! {

/// Whether `y` is a leap year of the proleptic Gregorian calendar.
pub open spec fn is_leap_year(y: int) -> bool {
    (y % 4 == 0 && y % 100 != 0) || y % 400 == 0
}

/// Number of days of month `m` (1 to 12) in year `y`.
pub open spec fn days_in_month(y: int, m: int) -> int {
    if m == 2 {
        if is_leap_year(y) { 29 } else { 28 }
    } else if m == 4 || m == 6 || m == 9 || m == 11 {
        30
    } else {
        31
    }
}

/// Days elapsed from 1 March of year 0 to the given date.
pub open spec fn day_number(y: int, m: int, d: int) -> int {
    let yy = if m <= 2 { y - 1 } else { y };
    let mp = if m > 2 { m - 3 } else { m + 9 };
    365 * yy + yy / 4 - yy / 100 + yy / 400 + (153 * mp + 2) / 5 + d - 1
}

/// Day of the week of a date, counted from Monday (0) to Sunday (6).
pub open spec fn weekday_of(y: int, m: int, d: int) -> int {
    (day_number(y, m, d) + 2) % 7
}

/// A calendar date together with its day of the week.
pub struct Date {
    pub year: i32,
    pub month: u32,
    pub day: u32,
    /// Day of the week, from Monday (0) to Sunday (6).
    pub weekday: u32,
}

impl Date {
    /// The date exists and its weekday is the one the calendar gives.
    pub open spec fn wf(self) -> bool {
        &&& 1 <= self.month <= 12
        &&& 1 <= self.day <= days_in_month(self.year as int, self.month as int)
        &&& self.weekday == weekday_of(self.year as int, self.month as int, self.day as int)
    }
}

/// `c` is an ASCII decimal digit.
pub open spec fn is_digit(c: char) -> bool {
    '0' <= c && c <= '9'
}

/// Every character of `s` is an ASCII decimal digit.
pub open spec fn all_digits(s: Seq<char>) -> bool {
    forall|i: int| 0 <= i < s.len() ==> is_digit(#[trigger] s[i])
}

/// The number that a string of decimal digits denotes.
pub open spec fn digits_value(s: Seq<char>) -> nat
    decreases s.len(),
{
    if s.len() == 0 {
        0
    } else {
        digits_value(s.drop_last()) * 10 + ((s.last() as u32) - ('0' as u32)) as nat
    }
}

/// The part of a time field before its first `:` (the whole field if none).
pub open spec fn hour_text(field: Seq<char>) -> Seq<char> {
    match first_occurrence(field, seq![':']) {
        Some(i) => field.take(i),
        None => field,
    }
}

/// The hour of a time field: an unsigned decimal number (an optional `+`
/// and at least one digit) below 24 in front of the first `:`.
pub open spec fn hour_of_field(field: Seq<char>) -> Option<nat> {
    let h = hour_text(field);
    let d = if h.len() > 0 && h[0] == '+' { h.drop_first() } else { h };
    if d.len() > 0 && all_digits(d) && digits_value(d) < 24 {
        Some(digits_value(d))
    } else {
        None
    }
}

/// A prefix of a digit string denotes at most what the whole string does.
proof fn lemma_digits_prefix(s: Seq<char>, k: int)
    requires
        0 <= k <= s.len(),
    ensures
        digits_value(s.take(k)) <= digits_value(s),
    decreases s.len(),
{
    if k == s.len() {
        assert(s.take(k) =~= s);
    } else {
        assert(s.drop_last().take(k) =~= s.take(k));
        lemma_digits_prefix(s.drop_last(), k);
    }
}

/// The hour of a time field, below 24, or `None` when it is malformed.
pub fn parse_hour(field: &str) -> (r: Option<usize>)
    ensures
        r matches Some(h) ==> hour_of_field(field@) == Some(h as nat) && h < 24,
        r is None ==> hour_of_field(field@) is None,
{
    let cs = chars_of(field);
    let n: usize = cs.len();
    let colon = vec![':'];
    let end: usize = match find(&cs, &colon) {
        Some(i) => {
            proof {
                crate::text::lemma_first_occurrence(cs@, colon@);
            }
            i
        },
        None => n,
    };
    proof {
        assert(colon@ =~= seq![':']);
        assert(hour_text(field@) =~= cs@.take(end as int));
    }
    let ghost h = cs@.take(end as int);
    let start: usize = if end > 0 && cs[0] == '+' { 1 } else { 0 };
    let ghost d = cs@.subrange(start as int, end as int);
    assert(d =~= (if h.len() > 0 && h[0] == '+' { h.drop_first() } else { h }));
    assert(hour_of_field(field@) == (if d.len() > 0 && all_digits(d) && digits_value(d) < 24 {
        Some(digits_value(d))
    } else {
        None
    }));
    if start == end {
        return None;
    }
    let mut val: usize = 0;
    let mut k: usize = start;
    while k < end
        invariant
            start <= k <= end <= n,
            n == cs@.len(),
            d == cs@.subrange(start as int, end as int),
            val == digits_value(d.take(k - start)),
            all_digits(d.take(k - start)),
            val < 24,
            hour_of_field(field@) == (if d.len() > 0 && all_digits(d) && digits_value(d) < 24 {
                Some(digits_value(d))
            } else {
                None
            }),
            d.len() > 0,
        decreases end - k,
    {
        let c = cs[k];
        if !('0' <= c && c <= '9') {
            assert(!is_digit(d[k - start]));
            return None;
        }
        proof {
            assert(d.take(k - start + 1).drop_last() =~= d.take(k - start));
            assert(d.take(k - start + 1).last() == c);
            assert(all_digits(d.take(k - start + 1)));
        }
        val = val * 10 + ((c as u32) - ('0' as u32)) as usize;
        if val >= 24 {
            proof {
                if all_digits(d) {
                    lemma_digits_prefix(d, k - start + 1);
                }
            }
            return None;
        }
        k = k + 1;
    }
    assert(d.take(end - start) =~= d);
    Some(val)
}

/// Why a CSV text could not be tallied.
#[derive(Debug, Clone, Copy, PartialEq, Eq, Structural)]
pub enum TallyError {
    /// The text is not valid CSV (the reader failed).
    Csv,
    /// A record has fewer than three fields.
    MissingField,
    /// A time field does not start with an hour from 0 to 23.
    BadHour,
    /// A date field is not a `DD/MM/YY` date.
    BadDate,
}

/// One tallied message: sender, hour of day and day of week (from Monday).
pub struct Event {
    pub name: Seq<char>,
    pub hour: nat,
    pub weekday: nat,
}

/// The date format of the date field.
pub open spec fn date_format() -> Seq<char> {
    seq!['%', 'd', '/', '%', 'm', '/', '%', 'y']
}

/// The event of a `Date,Hour,Name` record, or why it has none.
pub open spec fn event_of_row(row: Seq<Seq<char>>) -> Result<Event, TallyError> {
    if row.len() < 3 {
        Err(TallyError::MissingField)
    } else {
        match hour_of_field(row[1]) {
            None => Err(TallyError::BadHour),
            Some(h) => match date_of_text(row[0], date_format()) {
                None => Err(TallyError::BadDate),
                Some((y, m, d)) => Ok(Event { name: row[2], hour: h, weekday: weekday_of(y, m, d) as nat }),
            },
        }
    }
}

/// The events of all records, or the error of the first record that has none.
pub open spec fn events_of(rows: Seq<Seq<Seq<char>>>) -> Result<Seq<Event>, TallyError>
    decreases rows.len(),
{
    if rows.len() == 0 {
        Ok(seq![])
    } else {
        match events_of(rows.drop_last()) {
            Err(e) => Err(e),
            Ok(es) => match event_of_row(rows.last()) {
                Err(e) => Err(e),
                Ok(ev) => Ok(es.push(ev)),
            },
        }
    }
}

/// How many events of sender `name` fall in hour `h`.
pub open spec fn hour_tally(es: Seq<Event>, name: Seq<char>, h: nat) -> nat
    decreases es.len(),
{
    if es.len() == 0 {
        0
    } else {
        hour_tally(es.drop_last(), name, h) + if es.last().name == name && es.last().hour == h { 1nat } else { 0 }
    }
}

/// How many events of sender `name` fall on weekday `w`.
pub open spec fn weekday_tally(es: Seq<Event>, name: Seq<char>, w: nat) -> nat
    decreases es.len(),
{
    if es.len() == 0 {
        0
    } else {
        weekday_tally(es.drop_last(), name, w) + if es.last().name == name && es.last().weekday == w { 1nat } else { 0 }
    }
}

proof fn lemma_tallies_bounded(es: Seq<Event>, name: Seq<char>, h: nat, w: nat)
    ensures
        hour_tally(es, name, h) <= es.len(),
        weekday_tally(es, name, w) <= es.len(),
    decreases es.len(),
{
    if es.len() > 0 {
        lemma_tallies_bounded(es.drop_last(), name, h, w);
    }
}

/// One sender's counts: 24 by hour of day, 7 by day of week (from Monday).
pub struct SenderTally {
    pub name: String,
    pub hours: Vec<usize>,
    pub weekdays: Vec<usize>,
}

/// The counts of every sender, in order of first appearance.
pub struct Tallies {
    pub senders: Vec<SenderTally>,
}

/// The entries `s` are the tallies of the events `es`: each sender appears
/// once, with 24 hour counts and 7 weekday counts; every sender of `es` has
/// an entry, every entry is a sender of `es`, and each count is exact.
#[verifier::opaque]
pub open spec fn tallies_of(s: Seq<SenderTally>, es: Seq<Event>) -> bool {
    &&& forall|k: int| 0 <= k < s.len() ==> (#[trigger] s[k]).hours@.len() == 24 && s[k].weekdays@.len() == 7
    &&& forall|k: int, l: int| 0 <= k < l < s.len() ==> (#[trigger] s[k]).name@ != (#[trigger] s[l]).name@
    &&& forall|k: int, h: int| 0 <= k < s.len() && 0 <= h < 24
        ==> #[trigger] s[k].hours@[h] == hour_tally(es, s[k].name@, h as nat)
    &&& forall|k: int, w: int| 0 <= k < s.len() && 0 <= w < 7
        ==> #[trigger] s[k].weekdays@[w] == weekday_tally(es, s[k].name@, w as nat)
    &&& forall|i: int| 0 <= i < es.len() ==> has_entry(s, (#[trigger] es[i]).name)
    &&& forall|k: int| 0 <= k < s.len() ==> is_sender(es, (#[trigger] s[k]).name@)
}

/// Some entry of `s` is for sender `name`.
pub open spec fn has_entry(s: Seq<SenderTally>, name: Seq<char>) -> bool {
    exists|k: int| 0 <= k < s.len() && (#[trigger] s[k]).name@ == name
}

/// Some event of `es` is from sender `name`.
pub open spec fn is_sender(es: Seq<Event>, name: Seq<char>) -> bool {
    exists|i: int| 0 <= i < es.len() && (#[trigger] es[i]).name == name
}

/// Counting one more event of a sender that already has an entry.
proof fn lemma_add_existing(s0: Seq<SenderTally>, s1: Seq<SenderTally>, es: Seq<Event>, ev: Event, k: int)
    requires
        tallies_of(s0, es),
        0 <= k < s0.len(),
        s0[k].name@ == ev.name,
        ev.hour < 24,
        ev.weekday < 7,
        s0[k].hours@.len() == 24,
        s0[k].weekdays@.len() == 7,
        s0[k].hours@[ev.hour as int] < usize::MAX,
        s0[k].weekdays@[ev.weekday as int] < usize::MAX,
        s1.len() == s0.len(),
        forall|j: int| 0 <= j < s0.len() && j != k ==> s1[j] == s0[j],
        s1[k].name@ == s0[k].name@,
        s1[k].hours@ == s0[k].hours@.update(ev.hour as int, (s0[k].hours@[ev.hour as int] + 1) as usize),
        s1[k].weekdays@ == s0[k].weekdays@.update(ev.weekday as int, (s0[k].weekdays@[ev.weekday as int] + 1) as usize),
    ensures
        tallies_of(s1, es.push(ev)),
{
    reveal(tallies_of);
    let es2 = es.push(ev);
    assert(es2.drop_last() =~= es);
    assert forall|j: int, h: int| 0 <= j < s1.len() && 0 <= h < 24
        implies #[trigger] s1[j].hours@[h] == hour_tally(es2, s1[j].name@, h as nat) by {
        lemma_tally_push(es, ev, s1[j].name@, h as nat, 0);
        assert(s0[j].hours@[h] == hour_tally(es, s0[j].name@, h as nat));
        if j != k {
            assert(s1[j] == s0[j]);
            if j < k {
                assert(s0[j].name@ != s0[k].name@);
            } else {
                assert(s0[k].name@ != s0[j].name@);
            }
        }
    }
    assert forall|j: int, w: int| 0 <= j < s1.len() && 0 <= w < 7
        implies #[trigger] s1[j].weekdays@[w] == weekday_tally(es2, s1[j].name@, w as nat) by {
        lemma_tally_push(es, ev, s1[j].name@, 0, w as nat);
        assert(s0[j].weekdays@[w] == weekday_tally(es, s0[j].name@, w as nat));
        if j != k {
            assert(s1[j] == s0[j]);
            if j < k {
                assert(s0[j].name@ != s0[k].name@);
            } else {
                assert(s0[k].name@ != s0[j].name@);
            }
        }
    }
    assert forall|i: int| 0 <= i < es2.len() implies has_entry(s1, (#[trigger] es2[i]).name) by {
        if i == es.len() {
            assert(s1[k].name@ == es2[i].name);
        } else {
            assert(es2[i] == es[i]);
            let j = choose|j: int| 0 <= j < s0.len() && s0[j].name@ == es[i].name;
            assert(s1[j].name@ == s0[j].name@);
        }
    }
    assert forall|j: int| 0 <= j < s1.len() implies is_sender(es2, (#[trigger] s1[j]).name@) by {
        assert(s1[j].name@ == s0[j].name@);
        let i = choose|i: int| 0 <= i < es.len() && s0[j].name@ == es[i].name;
        assert(es2[i] == es[i]);
    }
    assert forall|j: int, l: int| 0 <= j < l < s1.len() implies (#[trigger] s1[j]).name@ != (#[trigger] s1[l]).name@ by {
        assert(s1[j].name@ == s0[j].name@);
        assert(s1[l].name@ == s0[l].name@);
    }
}

/// Counting the first event of a sender.
proof fn lemma_add_new(s0: Seq<SenderTally>, s1: Seq<SenderTally>, st: SenderTally, es: Seq<Event>, ev: Event)
    requires
        s1 == s0.push(st),
        tallies_of(s0, es),
        forall|j: int| 0 <= j < s0.len() ==> (#[trigger] s0[j]).name@ != ev.name,
        st.name@ == ev.name,
        ev.hour < 24,
        ev.weekday < 7,
        st.hours@.len() == 24,
        st.weekdays@.len() == 7,
        forall|h: int| 0 <= h < 24 ==> #[trigger] st.hours@[h] == (if h == ev.hour { 1usize } else { 0usize }),
        forall|w: int| 0 <= w < 7 ==> #[trigger] st.weekdays@[w] == (if w == ev.weekday { 1usize } else { 0usize }),
    ensures
        tallies_of(s1, es.push(ev)),
{
    reveal(tallies_of);
    let es2 = es.push(ev);
    let n = s0.len() as int;
    assert(es2.drop_last() =~= es);
    assert forall|i: int| 0 <= i < es.len() implies (#[trigger] es[i]).name != ev.name by {
        if es[i].name == ev.name {
            let j = choose|j: int| 0 <= j < s0.len() && s0[j].name@ == es[i].name;
        }
    }
    lemma_no_sender(es, ev.name);
    assert forall|j: int, h: int| 0 <= j < s1.len() && 0 <= h < 24
        implies #[trigger] s1[j].hours@[h] == hour_tally(es2, s1[j].name@, h as nat) by {
        lemma_tally_push(es, ev, s1[j].name@, h as nat, 0);
        if j < n {
            assert(s1[j] == s0[j]);
            assert(s0[j].hours@[h] == hour_tally(es, s0[j].name@, h as nat));
        } else {
            assert(s1[j] == st);
            assert(hour_tally(es, ev.name, h as nat) == 0);
        }
    }
    assert forall|j: int, w: int| 0 <= j < s1.len() && 0 <= w < 7
        implies #[trigger] s1[j].weekdays@[w] == weekday_tally(es2, s1[j].name@, w as nat) by {
        lemma_tally_push(es, ev, s1[j].name@, 0, w as nat);
        if j < n {
            assert(s1[j] == s0[j]);
            assert(s0[j].weekdays@[w] == weekday_tally(es, s0[j].name@, w as nat));
        } else {
            assert(s1[j] == st);
            assert(weekday_tally(es, ev.name, w as nat) == 0);
        }
    }
    assert forall|i: int| 0 <= i < es2.len() implies has_entry(s1, (#[trigger] es2[i]).name) by {
        if i == es.len() {
            assert(es2[i] == ev);
            assert(s1[n] == st);
            assert(s1[n].name@ == es2[i].name);
        } else {
            assert(es2[i] == es[i]);
            let j = choose|j: int| 0 <= j < s0.len() && s0[j].name@ == es[i].name;
            assert(s1[j] == s0[j]);
            assert(s1[j].name@ == es2[i].name);
        }
    }
    assert forall|j: int| 0 <= j < s1.len() implies is_sender(es2, (#[trigger] s1[j]).name@) by {
        if j == n {
            assert(es2[es.len() as int] == ev);
            assert(s1[j] == st);
            assert(s1[j].name@ == es2[es.len() as int].name);
        } else {
            assert(s1[j] == s0[j]);
            let i = choose|i: int| 0 <= i < es.len() && s0[j].name@ == es[i].name;
            assert(es2[i] == es[i]);
        }
    }
    assert forall|j: int| 0 <= j < s1.len() implies (#[trigger] s1[j]).hours@.len() == 24 && s1[j].weekdays@.len() == 7 by {
        if j < n {
            assert(s1[j] == s0[j]);
        }
    }
    assert forall|j: int, l: int| 0 <= j < l < s1.len() implies (#[trigger] s1[j]).name@ != (#[trigger] s1[l]).name@ by {
        assert(s1[j] == s0[j]);
        if l < n {
            assert(s1[l] == s0[l]);
        }
    }
}
impl Tallies {
    /// The tallies are exactly those of the events `es` (see `tallies_of`).
    pub open spec fn counts(self, es: Seq<Event>) -> bool {
        tallies_of(self.senders@, es)
    }

    /// No senders yet.
    pub fn new() -> (r: Tallies)
        ensures
            r.counts(seq![]),
    {
        reveal(tallies_of);
        Tallies { senders: Vec::new() }
    }

    /// The position of sender `name`, if it has an entry.
    pub fn position(&self, name: &String) -> (r: Option<usize>)
        ensures
            r matches Some(k) ==> k < self.senders@.len() && self.senders@[k as int].name@ == name@,
            r is None ==> forall|k: int| 0 <= k < self.senders@.len() ==> self.senders@[k].name@ != name@,
    {
        let mut k: usize = 0;
        while k < self.senders.len()
            invariant
                k <= self.senders@.len(),
                forall|j: int| 0 <= j < k ==> self.senders@[j].name@ != name@,
            decreases self.senders@.len() - k,
        {
            if self.senders[k].name == *name {
                return Some(k);
            }
            k = k + 1;
        }
        None
    }

    /// Counts one more event.
    fn add(&mut self, name: &String, hour: usize, weekday: usize, Ghost(es): Ghost<Seq<Event>>)
        requires
            old(self).counts(es),
            hour < 24,
            weekday < 7,
            es.len() < usize::MAX,
        ensures
            final(self).counts(es.push(Event { name: name@, hour: hour as nat, weekday: weekday as nat })),
    {
        let ghost ev = Event { name: name@, hour: hour as nat, weekday: weekday as nat };
        let ghost old_senders = self.senders@;
        match self.position(name) {
            Some(k) => {
                let mut st = self.senders.remove(k);
                proof {
                    lemma_entry(old_senders, es, k as int, hour as int, weekday as int);
                    lemma_tallies_bounded(es, name@, hour as nat, weekday as nat);
                    assert(st == old_senders[k as int]);
                }
                let c = st.hours[hour];
                st.hours.set(hour, c + 1);
                let c = st.weekdays[weekday];
                st.weekdays.set(weekday, c + 1);
                self.senders.insert(k, st);
                proof {
                    assert(self.senders@ =~= old_senders.update(k as int, st));
                    lemma_add_existing(old_senders, self.senders@, es, ev, k as int);
                }
            },
            None => {
                let mut hours: Vec<usize> = vec![0, 0, 0, 0, 0, 0, 0, 0, 0, 0, 0, 0, 0, 0, 0, 0, 0, 0, 0, 0, 0, 0, 0, 0];
                let mut weekdays: Vec<usize> = vec![0, 0, 0, 0, 0, 0, 0];
                hours.set(hour, 1);
                weekdays.set(weekday, 1);
                let st = SenderTally { name: name.clone(), hours, weekdays };
                self.senders.push(st);
                proof {
                    assert(self.senders@ =~= old_senders.push(st));
                    lemma_add_new(old_senders, self.senders@, st, es, ev);
                }
            },
        }
    }
}

/// What the tallies say of one entry.
proof fn lemma_entry(s: Seq<SenderTally>, es: Seq<Event>, k: int, h: int, w: int)
    requires
        tallies_of(s, es),
        0 <= k < s.len(),
        0 <= h < 24,
        0 <= w < 7,
    ensures
        s[k].hours@.len() == 24,
        s[k].weekdays@.len() == 7,
        s[k].hours@[h] == hour_tally(es, s[k].name@, h as nat),
        s[k].weekdays@[w] == weekday_tally(es, s[k].name@, w as nat),
{
    reveal(tallies_of);
}

/// One more event adds one to its own sender's hour and weekday counts.
proof fn lemma_tally_push(es: Seq<Event>, ev: Event, name: Seq<char>, h: nat, w: nat)
    ensures
        hour_tally(es.push(ev), name, h) == hour_tally(es, name, h) + if ev.name == name && ev.hour == h { 1nat } else { 0 },
        weekday_tally(es.push(ev), name, w) == weekday_tally(es, name, w) + if ev.name == name && ev.weekday == w { 1nat } else { 0 },
{
    assert(es.push(ev).drop_last() =~= es);
}

/// A sender with no event has no counts.
proof fn lemma_no_sender(es: Seq<Event>, name: Seq<char>)
    requires
        forall|i: int| 0 <= i < es.len() ==> (#[trigger] es[i]).name != name,
    ensures
        forall|h: nat| #[trigger] hour_tally(es, name, h) == 0,
        forall|w: nat| #[trigger] weekday_tally(es, name, w) == 0,
    decreases es.len(),
{
    if es.len() > 0 {
        assert forall|i: int| 0 <= i < es.drop_last().len() implies (#[trigger] es.drop_last()[i]).name != name by {
            assert(es.drop_last()[i] == es[i]);
        }
        lemma_no_sender(es.drop_last(), name);
        assert(es[es.len() - 1].name != name);
        assert forall|h: nat| #[trigger] hour_tally(es, name, h) == 0 by {
            assert(hour_tally(es.drop_last(), name, h) == 0);
        }
        assert forall|w: nat| #[trigger] weekday_tally(es, name, w) == 0 by {
            assert(weekday_tally(es.drop_last(), name, w) == 0);
        }
    }
}

/// Once a prefix of the records fails, the whole does, with the same error.
proof fn lemma_events_prefix(rows: Seq<Seq<Seq<char>>>, k: int)
    requires
        0 <= k <= rows.len(),
        events_of(rows.take(k)) is Err,
    ensures
        events_of(rows) == events_of(rows.take(k)),
    decreases rows.len(),
{
    if k == rows.len() {
        assert(rows.take(k) =~= rows);
    } else {
        assert(rows.drop_last().take(k) =~= rows.take(k));
        lemma_events_prefix(rows.drop_last(), k);
    }
}

/// The hour and weekday of one `Date,Hour,Name` record.
pub fn read_row(row: &Vec<String>) -> (r: Result<(usize, usize), TallyError>)
    ensures
        match event_of_row(row.deep_view()) {
            Ok(ev) => r == Ok::<(usize, usize), TallyError>((ev.hour as usize, ev.weekday as usize))
                && ev.hour < 24 && ev.weekday < 7,
            Err(e) => r == Err::<(usize, usize), TallyError>(e),
        },
{
    if row.len() < 3 {
        return Err(TallyError::MissingField);
    }
    proof {
        assert(row.deep_view()[1] == row@[1]@);
        assert(row.deep_view()[0] == row@[0]@);
    }
    let hour = match parse_hour(row[1].as_str()) {
        Some(h) => h,
        None => return Err(TallyError::BadHour),
    };
    let fmt = "%d/%m/%y";
    proof {
        reveal_strlit("%d/%m/%y");
        assert(fmt@ =~= date_format());
    }
    match parse_date(row[0].as_str(), fmt) {
        Ok(d) => Ok((hour, d.weekday as usize)),
        Err(_) => Err(TallyError::BadDate),
    }
}

/// The tallies of `Date,Hour,Name` records, or the error of the first
/// record that cannot be read.
pub fn tally_rows(rows: &Vec<Vec<String>>) -> (r: Result<Tallies, TallyError>)
    ensures
        match events_of(rows.deep_view()) {
            Ok(es) => r matches Ok(t) && t.counts(es),
            Err(e) => r == Err::<Tallies, TallyError>(e),
        },
{
    let ghost all = rows.deep_view();
    let ghost mut es: Seq<Event> = seq![];
    let mut t = Tallies::new();
    let mut i: usize = 0;
    assert(all.take(0) =~= seq![]);
    while i < rows.len()
        invariant
            i <= rows@.len(),
            all == rows.deep_view(),
            all.len() == rows@.len(),
            events_of(all.take(i as int)) == Ok::<Seq<Event>, TallyError>(es),
            es.len() == i,
            t.counts(es),
        decreases rows@.len() - i,
    {
        proof {
            assert(all.take(i as int + 1).drop_last() =~= all.take(i as int));
            assert(all.take(i as int + 1).last() == rows@[i as int].deep_view());
        }
        match read_row(&rows[i]) {
            Ok((hour, weekday)) => {
                proof {
                    assert(rows@[i as int].deep_view()[2] == rows@[i as int]@[2]@);
                }
                t.add(&rows[i][2], hour, weekday, Ghost(es));
                proof {
                    es = es.push(Event { name: rows@[i as int]@[2]@, hour: hour as nat, weekday: weekday as nat });
                }
            },
            Err(e) => {
                proof {
                    lemma_events_prefix(all, i as int + 1);
                }
                return Err(e);
            },
        }
        i = i + 1;
    }
    assert(all.take(rows@.len() as int) =~= all);
    Ok(t)
}

/// The tallies of a CSV text with a header row and `Date,Hour,Name` records.
pub fn tally_csv(text: &str) -> (r: Result<Tallies, TallyError>)
    ensures
        match csv_records_of(text@) {
            None => r == Err::<Tallies, TallyError>(TallyError::Csv),
            Some(rows) => match events_of(rows) {
                Ok(es) => r matches Ok(t) && t.counts(es),
                Err(e) => r == Err::<Tallies, TallyError>(e),
            },
        },
{
    match read_csv_records(text) {
        Ok(rows) => tally_rows(&rows),
        Err(_) => Err(TallyError::Csv),
    }
}

} // verus!
