use vstd::prelude::*;
use crate::validator::{validate_date_for_birthday, valid_date, InvalidDate};

verus! {

/// The most entries a store holds.
pub const MAX_PERSONS: usize = 10;

/// One friend's record: a name and a birth day and month.
#[derive(Clone, Debug, PartialEq)]
pub struct Entry {
    pub name: String,
    pub birth_day: u8,
    pub birth_month: u8,
}

impl Default for Entry {
    /// The empty placeholder: no name, day 0, month 0.
    fn default() -> (r: Entry)
        ensures
            r.name@ == Seq::<char>::empty(),
            r.birth_day == 0,
            r.birth_month == 0,
    {
        Entry { name: String::new(), birth_day: 0, birth_month: 0 }
    }
}

/// Why an entry was not added.
#[derive(Clone, Copy, Debug, PartialEq, Eq, Structural)]
pub enum StoreError {
    /// The store already holds `MAX_PERSONS` entries.
    CapacityExceeded,
    /// The entry's day and month are not on the calendar table.
    InvalidDate(InvalidDate),
}

/// The bounded, insertion-ordered store of entries.
#[derive(Clone, Debug)]
pub struct Birthdays {
    pub friends: Vec<Entry>,
}

/// The store holds at most `MAX_PERSONS` entries.
pub open spec fn within_capacity(entries: Seq<Entry>) -> bool {
    entries.len() <= MAX_PERSONS
}

/// What `add` returns on a store holding `entries`.
pub open spec fn add_outcome(entries: Seq<Entry>, entry: Entry) -> Result<(), StoreError> {
    if entries.len() >= MAX_PERSONS {
        Err(StoreError::CapacityExceeded)
    } else if !valid_date(entry.birth_day as int, entry.birth_month as int) {
        Err(StoreError::InvalidDate(InvalidDate { day: entry.birth_day, month: entry.birth_month }))
    } else {
        Ok(())
    }
}

/// The entries held after `add` on a store holding `entries`: the new entry
/// is appended when it is accepted, and nothing changes otherwise.
pub open spec fn stored_after(entries: Seq<Entry>, entry: Entry) -> Seq<Entry> {
    if add_outcome(entries, entry) is Ok {
        entries.push(entry)
    } else {
        entries
    }
}

/// The entries held after adding each of `adds` in turn, starting from `entries`.
pub open spec fn stored_after_all(entries: Seq<Entry>, adds: Seq<Entry>) -> Seq<Entry>
    decreases adds.len(),
{
    if adds.len() == 0 {
        entries
    } else {
        stored_after(stored_after_all(entries, adds.drop_last()), adds.last())
    }
}

/// The entry was born on exactly this day and month.
pub open spec fn born_on(entry: Entry, day: u8, month: u8) -> bool {
    entry.birth_day == day && entry.birth_month == month
}

/// The entries born on (day, month), in their order in `entries`.
pub open spec fn matching(entries: Seq<Entry>, day: u8, month: u8) -> Seq<Entry>
    decreases entries.len(),
{
    if entries.len() == 0 {
        Seq::empty()
    } else if born_on(entries.last(), day, month) {
        matching(entries.drop_last(), day, month).push(entries.last())
    } else {
        matching(entries.drop_last(), day, month)
    }
}

/// The decimal digit character for `d`, which is below ten.
pub open spec fn digit_char(d: nat) -> char {
    if d == 0 { '0' } else if d == 1 { '1' } else if d == 2 { '2' } else if d == 3 { '3' }
    else if d == 4 { '4' } else if d == 5 { '5' } else if d == 6 { '6' } else if d == 7 { '7' }
    else if d == 8 { '8' } else { '9' }
}

/// `n` written in decimal, without leading zeros.
pub open spec fn decimal(n: nat) -> Seq<char>
    decreases n,
{
    if n < 10 {
        seq![digit_char(n)]
    } else {
        decimal(n / 10).push(digit_char(n % 10))
    }
}

/// The line printed for one entry: `<name>: <day>/<month>` and a newline.
pub open spec fn entry_line(entry: Entry) -> Seq<char> {
    entry.name@ + ": "@ + decimal(entry.birth_day as nat) + "/"@ + decimal(
        entry.birth_month as nat,
    ) + "\n"@
}

/// The lines of all `entries`, in order.
pub open spec fn listing(entries: Seq<Entry>) -> Seq<char>
    decreases entries.len(),
{
    if entries.len() == 0 {
        Seq::empty()
    } else {
        listing(entries.drop_last()) + entry_line(entries.last())
    }
}

/// However many entries are offered to `add`, one after another, a store
/// that starts within its capacity stays within it.
pub proof fn lemma_capacity_kept(entries: Seq<Entry>, adds: Seq<Entry>)
    requires
        within_capacity(entries),
    ensures
        within_capacity(stored_after_all(entries, adds)),
    decreases adds.len(),
{
    if adds.len() > 0 {
        lemma_capacity_kept(entries, adds.drop_last());
    }
}

/// On a full store `add` fails with `CapacityExceeded`, whatever the entry,
/// and the store is left as it was.
pub proof fn lemma_full_store_rejects(entries: Seq<Entry>, entry: Entry)
    requires
        entries.len() == MAX_PERSONS,
    ensures
        add_outcome(entries, entry) == Err::<(), StoreError>(StoreError::CapacityExceeded),
        stored_after(entries, entry) == entries,
{
}

/// On a store with room, an entry whose date is off the calendar table is
/// refused with `InvalidDate`, and the store is left as it was.
pub proof fn lemma_invalid_date_rejected(entries: Seq<Entry>, entry: Entry)
    requires
        entries.len() < MAX_PERSONS,
        !valid_date(entry.birth_day as int, entry.birth_month as int),
    ensures
        add_outcome(entries, entry) == Err::<(), StoreError>(
            StoreError::InvalidDate(InvalidDate { day: entry.birth_day, month: entry.birth_month }),
        ),
        stored_after(entries, entry) == entries,
{
}

/// Adding validly dated entries to an empty store, no more than its
/// capacity, stores exactly those entries in the order they were added.
pub proof fn lemma_valid_adds_kept_in_order(adds: Seq<Entry>)
    requires
        adds.len() <= MAX_PERSONS,
        forall|i: int|
            0 <= i < adds.len() ==> valid_date(
                #[trigger] adds[i].birth_day as int,
                adds[i].birth_month as int,
            ),
    ensures
        stored_after_all(Seq::empty(), adds) == adds,
    decreases adds.len(),
{
    if adds.len() > 0 {
        let front = adds.drop_last();
        assert forall|i: int| 0 <= i < front.len() implies valid_date(
            #[trigger] front[i].birth_day as int,
            front[i].birth_month as int,
        ) by {
            assert(front[i] == adds[i]);
        }
        lemma_valid_adds_kept_in_order(front);
        assert(valid_date(adds[adds.len() - 1].birth_day as int, adds[adds.len() - 1].birth_month as int));
        assert(front.push(adds.last()) =~= adds);
    }
}

/// Three validly dated entries added in turn to an empty store, all born on
/// the queried date, are found in the order they were added.
pub proof fn lemma_order_preserved(a: Entry, b: Entry, c: Entry, day: u8, month: u8)
    requires
        valid_date(a.birth_day as int, a.birth_month as int),
        valid_date(b.birth_day as int, b.birth_month as int),
        valid_date(c.birth_day as int, c.birth_month as int),
        born_on(a, day, month),
        born_on(b, day, month),
        born_on(c, day, month),
    ensures
        matching(stored_after_all(Seq::empty(), seq![a, b, c]), day, month) == seq![a, b, c],
{
    let adds = seq![a, b, c];
    assert forall|i: int| 0 <= i < adds.len() implies valid_date(
        #[trigger] adds[i].birth_day as int,
        adds[i].birth_month as int,
    ) by {}
    lemma_valid_adds_kept_in_order(adds);
    assert(adds.drop_last() =~= seq![a, b]);
    assert(seq![a, b].drop_last() =~= seq![a]);
    assert(seq![a].drop_last() =~= Seq::<Entry>::empty());
    reveal_with_fuel(matching, 4);
    assert(matching(seq![a], day, month) =~= seq![a]);
    assert(matching(seq![a, b], day, month) =~= seq![a, b]);
    assert(matching(adds, day, month) =~= adds);
}

/// Every entry that a query returns was born on exactly the queried day and
/// month, and each one comes from the store.
pub proof fn lemma_exact_match_only(entries: Seq<Entry>, day: u8, month: u8)
    ensures
        forall|i: int|
            0 <= i < matching(entries, day, month).len() ==> born_on(
                #[trigger] matching(entries, day, month)[i],
                day,
                month,
            ) && entries.contains(matching(entries, day, month)[i]),
    decreases entries.len(),
{
    if entries.len() > 0 {
        let front = entries.drop_last();
        lemma_exact_match_only(front, day, month);
        let found = matching(entries, day, month);
        assert forall|i: int| 0 <= i < found.len() implies born_on(
            #[trigger] found[i],
            day,
            month,
        ) && entries.contains(found[i]) by {
            let earlier = matching(front, day, month);
            if i < earlier.len() {
                assert(found[i] == earlier[i]);
                assert(front.contains(earlier[i]));
                let k = choose|k: int| 0 <= k < front.len() && front[k] == earlier[i];
                assert(entries[k] == front[k]);
            } else {
                assert(found[i] == entries.last());
                assert(entries[entries.len() - 1] == entries.last());
            }
        }
    }
}

impl Birthdays {
    /// The store holds no more than its capacity.
    pub open spec fn wf(&self) -> bool {
        within_capacity(self.friends@)
    }

    /// An empty store with room for `MAX_PERSONS` entries.
    pub fn new() -> (r: Birthdays)
        ensures
            r.friends@ == Seq::<Entry>::empty(),
            r.wf(),
    {
        let friends = reserved_entries(MAX_PERSONS);
        Birthdays { friends }
    }

    /// Appends `entry` if the store has room and its date is valid; a full
    /// store is reported before an invalid date. On failure nothing changes.
    pub fn add(&mut self, entry: Entry) -> (r: Result<(), StoreError>)
        ensures
            r == add_outcome(old(self).friends@, entry),
            final(self).friends@ == stored_after(old(self).friends@, entry),
            old(self).wf() ==> final(self).wf(),
    {
        if self.friends.len() >= MAX_PERSONS {
            return Err(StoreError::CapacityExceeded);
        }
        match validate_date_for_birthday(entry.birth_day, entry.birth_month) {
            Ok(()) => {},
            Err(e) => {
                return Err(StoreError::InvalidDate(e));
            },
        }
        self.friends.push(entry);
        Ok(())
    }

    /// The number of entries held.
    pub fn size(&self) -> (r: usize)
        ensures
            r == self.friends@.len(),
    {
        self.friends.len()
    }

    /// The entries born on exactly (day, month), in insertion order.
    pub fn find_by_date(&self, day: u8, month: u8) -> (r: Vec<&Entry>)
        ensures
            r@.map_values(|e: &Entry| *e) == matching(self.friends@, day, month),
    {
        let mut found: Vec<&Entry> = Vec::new();
        let mut i: usize = 0;
        while i < self.friends.len()
            invariant
                i <= self.friends@.len(),
                found@.map_values(|e: &Entry| *e) == matching(self.friends@.subrange(0, i as int), day, month),
            decreases self.friends@.len() - i,
        {
            let friend = &self.friends[i];
            proof {
                assert(self.friends@.subrange(0, i + 1).drop_last() =~= self.friends@.subrange(0, i as int));
            }
            if friend.birth_day == day && friend.birth_month == month {
                found.push(friend);
            }
            assert(found@.map_values(|e: &Entry| *e) =~= matching(self.friends@.subrange(0, i + 1), day, month));
            i = i + 1;
        }
        assert(self.friends@.subrange(0, i as int) =~= self.friends@);
        found
    }

    /// Appends to `out` one line `<name>: <day>/<month>` for each entry born
    /// on exactly (day, month), in insertion order.
    pub fn print_birthdays_to_writer(&self, birth_day: u8, birth_month: u8, out: &mut String)
        ensures
            final(out)@ == old(out)@ + listing(matching(self.friends@, birth_day, birth_month)),
    {
        let found = self.find_by_date(birth_day, birth_month);
        let mut i: usize = 0;
        while i < found.len()
            invariant
                i <= found@.len(),
                found@.map_values(|e: &Entry| *e) == matching(self.friends@, birth_day, birth_month),
                out@ == old(out)@ + listing(found@.map_values(|e: &Entry| *e).subrange(0, i as int)),
            decreases found@.len() - i,
        {
            let friend = found[i];
            append_line(out, friend);
            proof {
                let all = found@.map_values(|e: &Entry| *e);
                assert(all.subrange(0, i + 1).drop_last() =~= all.subrange(0, i as int));
                assert(all.subrange(0, i + 1).last() == *friend);
            }
            assert(out@ =~= old(out)@ + listing(found@.map_values(|e: &Entry| *e).subrange(0, i + 1)));
            i = i + 1;
        }
        assert(found@.map_values(|e: &Entry| *e).subrange(0, i as int) =~= found@.map_values(|e: &Entry| *e));
    }
}

/// The one-character text of digit `d`.
fn digit_text(d: u8) -> (r: &'static str)
    requires
        d < 10,
    ensures
        r@ == seq![digit_char(d as nat)],
{
    proof {
        reveal_strlit("0");
        reveal_strlit("1");
        reveal_strlit("2");
        reveal_strlit("3");
        reveal_strlit("4");
        reveal_strlit("5");
        reveal_strlit("6");
        reveal_strlit("7");
        reveal_strlit("8");
        reveal_strlit("9");
    }
    match d {
        0 => "0",
        1 => "1",
        2 => "2",
        3 => "3",
        4 => "4",
        5 => "5",
        6 => "6",
        7 => "7",
        8 => "8",
        _ => "9",
    }
}

/// Appends `n` in decimal to `out`.
fn append_decimal(out: &mut String, n: u8)
    ensures
        final(out)@ == old(out)@ + decimal(n as nat),
{
    if n >= 100 {
        out.append(digit_text(n / 100));
    }
    if n >= 10 {
        out.append(digit_text((n / 10) % 10));
    }
    out.append(digit_text(n % 10));
    proof {
        let m = n as nat;
        if m >= 100 {
            assert(decimal(m / 100) == seq![digit_char(m / 100)]);
            assert(decimal(m / 10) == decimal((m / 10) / 10).push(digit_char((m / 10) % 10)));
            assert((m / 10) / 10 == m / 100);
        } else if m >= 10 {
            assert(decimal(m / 10) == seq![digit_char(m / 10)]);
            assert((m / 10) % 10 == m / 10);
        }
    }
    assert(final(out)@ =~= old(out)@ + decimal(n as nat)) by {
        let m = n as nat;
        if m >= 10 {
            assert(decimal(m) == decimal(m / 10).push(digit_char(m % 10)));
        }
    }
}

/// Appends the line of `entry` to `out`.
fn append_line(out: &mut String, entry: &Entry)
    ensures
        final(out)@ == old(out)@ + entry_line(*entry),
{
    out.append(entry.name.as_str());
    out.append(": ");
    append_decimal(out, entry.birth_day);
    out.append("/");
    append_decimal(out, entry.birth_month);
    out.append("\n");
    assert(out@ =~= old(out)@ + entry_line(*entry));
}

/// Relies on Vec::with_capacity: it returns an empty vector.
#[verifier::external_body]
fn reserved_entries(capacity: usize) -> (r: Vec<Entry>)
    ensures
        r@ == Seq::<Entry>::empty(),
{
    Vec::with_capacity(capacity)
}

} // verus!
