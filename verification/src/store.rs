//! The vault store: the records of a vault, in the order in which they were
//! added or last replaced, found and replaced by name.

use vstd::prelude::*;
use vstd::utf8::{encode_utf8, encode_utf8_decode_utf8};

verus! {

/// One named credential.
#[derive(Clone, Debug, PartialEq, Eq)]
pub struct Record {
    /// An opaque unique token.
    pub id: String,
    /// The name by which the record is found.
    pub name: String,
    pub username: String,
    /// The password, in the clear.
    pub password: String,
    pub url: Option<String>,
    pub notes: Option<String>,
    /// When the record was last written, as an ISO 8601 timestamp in UTC.
    pub updated_at: String,
}

/// A record as a mathematical value: every text by its characters.
pub struct RecordView {
    pub id: Seq<char>,
    pub name: Seq<char>,
    pub username: Seq<char>,
    pub password: Seq<char>,
    pub url: Option<Seq<char>>,
    pub notes: Option<Seq<char>>,
    pub updated_at: Seq<char>,
}

/// The characters of an optional text.
pub open spec fn text_view(text: Option<String>) -> Option<Seq<char>> {
    match text {
        Some(s) => Some(s@),
        None => None,
    }
}

impl View for Record {
    type V = RecordView;

    open spec fn view(&self) -> RecordView {
        RecordView {
            id: self.id@,
            name: self.name@,
            username: self.username@,
            password: self.password@,
            url: text_view(self.url),
            notes: text_view(self.notes),
            updated_at: self.updated_at@,
        }
    }
}

/// The records of a vault, in stored order.
#[derive(Clone, Debug, PartialEq, Eq)]
pub struct Vault {
    pub entries: Vec<Record>,
}

impl View for Vault {
    type V = Seq<RecordView>;

    open spec fn view(&self) -> Seq<RecordView> {
        self.entries@.map_values(|r: Record| r@)
    }
}

/// The records that do not have the given name, in their order.
pub open spec fn without_name(records: Seq<RecordView>, name: Seq<char>) -> Seq<RecordView> {
    records.filter(|r: RecordView| r.name != name)
}

/// The records after one was added or replaced: those of another name, in
/// their order, then the new record.
pub open spec fn upsert_spec(records: Seq<RecordView>, record: RecordView) -> Seq<RecordView> {
    without_name(records, record.name).push(record)
}

/// The first record of the given name, if there is one.
pub open spec fn find_spec(records: Seq<RecordView>, name: Seq<char>) -> Option<RecordView>
    decreases records.len(),
{
    if records.len() == 0 {
        None
    } else if records[0].name == name {
        Some(records[0])
    } else {
        find_spec(records.drop_first(), name)
    }
}

/// How many records have the given name.
pub open spec fn count_named(records: Seq<RecordView>, name: Seq<char>) -> nat {
    records.filter(|r: RecordView| r.name == name).len()
}

/// Whether no two records have the same name.
pub open spec fn names_unique(records: Seq<RecordView>) -> bool {
    forall|i: int, j: int|
        0 <= i < j < records.len() ==> (#[trigger] records[i]).name != (#[trigger] records[j]).name
}

/// Tests whether two texts are the same, character by character.
pub fn same_text(a: &str, b: &str) -> (same: bool)
    ensures
        same == (a@ == b@),
{
    let x = a.as_bytes();
    let y = b.as_bytes();
    proof {
        encode_utf8_decode_utf8(a@);
        encode_utf8_decode_utf8(b@);
    }
    if x.len() != y.len() {
        return false;
    }
    let mut i: usize = 0;
    while i < x.len()
        invariant
            i <= x.len(),
            x@ == encode_utf8(a@),
            y@ == encode_utf8(b@),
            x@.len() == y@.len(),
            forall|j: int| 0 <= j < i ==> x@[j] == y@[j],
        decreases x.len() - i,
    {
        if x[i] != y[i] {
            return false;
        }
        i += 1;
    }
    proof {
        assert(x@ =~= y@);
    }
    true
}

/// `Uuid::new_v4` of the `uuid` crate, written out by `to_string`: a random
/// identifier in its hyphenated form, which has 36 characters. Which
/// identifier comes back is left open.
#[verifier::external_body]
fn fresh_id() -> (id: String)
    ensures
        id@.len() == 36,
{
    uuid::Uuid::new_v4().to_string()
}

/// Whether a character is a decimal digit.
pub open spec fn is_decimal_digit(c: char) -> bool {
    '0' <= c <= '9'
}

/// Whether a text has the shape of an RFC 3339 timestamp in UTC:
/// `YYYY-MM-DDTHH:MM:SS`, then, where the second is not whole, a point and one
/// to nine digits, then `Z`.
pub open spec fn is_utc_timestamp(text: Seq<char>) -> bool {
    &&& text.len() == 20 || 22 <= text.len() <= 30
    &&& forall|i: int|
        0 <= i < 19 && i != 4 && i != 7 && i != 10 && i != 13 && i != 16 ==> is_decimal_digit(
            #[trigger] text[i],
        )
    &&& text[4] == '-'
    &&& text[7] == '-'
    &&& text[10] == 'T'
    &&& text[13] == ':'
    &&& text[16] == ':'
    &&& text.len() > 20 ==> text[19] == '.'
    &&& forall|i: int| 20 <= i < text.len() - 1 ==> is_decimal_digit(#[trigger] text[i])
    &&& text[text.len() - 1] == 'Z'
}

/// `OffsetDateTime::now_utc` of the `time` crate, formatted by `format` as
/// RFC 3339: the present moment in UTC. Which moment is left open; the text has
/// the shape that the formatter gives every moment in UTC. There is none where
/// the clock stands in a year before 0, which the format cannot express. Where
/// the clock stands beyond what `OffsetDateTime` holds, the conversion from the
/// system's time panics; no argument decides this, so no precondition can keep
/// it out.
#[verifier::external_body]
fn now_iso() -> (stamp: Option<String>)
    ensures
        stamp matches Some(text) ==> is_utc_timestamp(text@),
{
    time::OffsetDateTime::now_utc().format(&time::format_description::well_known::Rfc3339).ok()
}

impl Record {
    /// A record without URL and notes, from its identifier, its three texts and
    /// the moment of writing.
    pub fn with_stamp(
        id: String,
        name: String,
        username: String,
        password: String,
        updated_at: String,
    ) -> (record: Record)
        ensures
            record@ == (RecordView {
                id: id@,
                name: name@,
                username: username@,
                password: password@,
                url: None,
                notes: None,
                updated_at: updated_at@,
            }),
    {
        Record { id, name, username, password, url: None, notes: None, updated_at }
    }

    /// A new record without URL and notes, with a fresh random identifier and
    /// the present moment, as an RFC 3339 timestamp in UTC, as the time of
    /// writing. There is none where the clock cannot be written as a timestamp.
    pub fn new(name: String, username: String, password: String) -> (made: Option<Record>)
        ensures
            made matches Some(record) ==> {
                &&& record@.name == name@
                &&& record@.username == username@
                &&& record@.password == password@
                &&& record@.url is None
                &&& record@.notes is None
                &&& record@.id.len() == 36
                &&& is_utc_timestamp(record@.updated_at)
            },
    {
        Record::stamped(fresh_id(), name, username, password, now_iso())
    }

    /// The record that `with_stamp` makes where there is a timestamp, and none
    /// where there is no timestamp.
    pub fn stamped(
        id: String,
        name: String,
        username: String,
        password: String,
        stamp: Option<String>,
    ) -> (made: Option<Record>)
        ensures
            stamp is None ==> made is None,
            stamp matches Some(updated_at) ==> made matches Some(record) && record@ == (
            RecordView {
                id: id@,
                name: name@,
                username: username@,
                password: password@,
                url: None,
                notes: None,
                updated_at: updated_at@,
            }),
    {
        match stamp {
            Some(updated_at) => Some(Record::with_stamp(id, name, username, password, updated_at)),
            None => None,
        }
    }
}

impl Default for Vault {
    fn default() -> (vault: Vault)
        ensures
            vault@ == Seq::<RecordView>::empty(),
    {
        Vault::new()
    }
}

impl Vault {
    /// A vault without records.
    pub fn new() -> (vault: Vault)
        ensures
            vault@ == Seq::<RecordView>::empty(),
    {
        let vault = Vault { entries: Vec::new() };
        proof {
            assert(vault@ =~= Seq::<RecordView>::empty());
        }
        vault
    }

    /// The number of records.
    pub fn len(&self) -> (n: usize)
        ensures
            n == self@.len(),
    {
        self.entries.len()
    }

    /// Adds a record, in place of every record that has its name: those are
    /// removed, the others keep their order, and the new record comes last.
    pub fn upsert(&mut self, record: Record)
        ensures
            final(self)@ == upsert_spec(old(self)@, record@),
    {
        let ghost before = self@;
        let ghost name = record.name@;
        let ghost keep = |r: RecordView| r.name != name;
        let ghost seen: int = 0;
        let mut i: usize = 0;
        proof {
            reveal(Seq::filter);
            assert(before.subrange(0, 0).filter(keep) =~= Seq::<RecordView>::empty());
            assert(self@ =~= before.subrange(0, 0).filter(keep) + before.subrange(
                0,
                before.len() as int,
            ));
        }
        while i < self.entries.len()
            invariant
                0 <= seen <= before.len(),
                name == record.name@,
                keep == |r: RecordView| r.name != name,
                i == before.subrange(0, seen).filter(keep).len(),
                self@ == before.subrange(0, seen).filter(keep) + before.subrange(
                    seen,
                    before.len() as int,
                ),
            decreases before.len() - seen,
        {
            proof {
                reveal(Seq::filter);
                assert(before.subrange(0, seen + 1).drop_last() =~= before.subrange(0, seen));
                assert(self@[i as int] == before[seen]);
                assert(self@[i as int] == self.entries@[i as int]@);
            }
            let ghost current = self@;
            if same_text(self.entries[i].name.as_str(), record.name.as_str()) {
                let _ = self.entries.remove(i);
                proof {
                    assert(self@ =~= current.remove(i as int));
                    assert(self@ =~= before.subrange(0, seen + 1).filter(keep) + before.subrange(
                        seen + 1,
                        before.len() as int,
                    ));
                }
            } else {
                i += 1;
                proof {
                    assert(self@ =~= before.subrange(0, seen + 1).filter(keep) + before.subrange(
                        seen + 1,
                        before.len() as int,
                    ));
                }
            }
            proof {
                seen = seen + 1;
            }
        }
        proof {
            assert(seen == before.len());
            assert(before.subrange(0, seen) =~= before);
            assert(self@ =~= without_name(before, name));
        }
        let ghost stripped = self@;
        self.entries.push(record);
        proof {
            assert(self@ =~= stripped.push(record@));
        }
    }

    /// The first record of the given name, or `None` where no record has it.
    pub fn find(&self, name: &str) -> (found: Option<&Record>)
        ensures
            match found {
                Some(record) => find_spec(self@, name@) == Some(record@),
                None => find_spec(self@, name@) is None,
            },
    {
        let mut i: usize = 0;
        proof {
            assert(self@.subrange(0, self@.len() as int) =~= self@);
        }
        while i < self.entries.len()
            invariant
                i <= self.entries.len(),
                find_spec(self@, name@) == find_spec(
                    self@.subrange(i as int, self@.len() as int),
                    name@,
                ),
            decreases self.entries.len() - i,
        {
            let record = &self.entries[i];
            proof {
                let rest = self@.subrange(i as int, self@.len() as int);
                assert(rest[0] == record@);
                assert(rest.drop_first() =~= self@.subrange(i + 1, self@.len() as int));
            }
            if same_text(record.name.as_str(), name) {
                return Some(record);
            }
            i += 1;
        }
        None
    }

    /// The records in stored order.
    pub fn list(&self) -> (records: &Vec<Record>)
        ensures
            records@.map_values(|r: Record| r@) == self@,
            records == &self.entries,
    {
        &self.entries
    }
}

/// No record that is left by `without_name` has the name.
pub proof fn lemma_without_name(records: Seq<RecordView>, name: Seq<char>)
    ensures
        forall|i: int|
            0 <= i < without_name(records, name).len() ==> (#[trigger] without_name(
                records,
                name,
            )[i]).name != name,
        find_spec(without_name(records, name), name) is None,
        count_named(without_name(records, name), name) == 0,
{
    let keep = |r: RecordView| r.name != name;
    let rest = without_name(records, name);
    assert forall|i: int| 0 <= i < rest.len() implies (#[trigger] rest[i]).name != name by {
        records.lemma_filter_pred(keep, i);
    }
    lemma_find_none(rest, name);
    rest.lemma_all_neg_filter_empty(|r: RecordView| r.name == name);
}

/// Where no record has the name, none is found.
pub proof fn lemma_find_none(records: Seq<RecordView>, name: Seq<char>)
    requires
        forall|i: int| 0 <= i < records.len() ==> (#[trigger] records[i]).name != name,
    ensures
        find_spec(records, name) is None,
    decreases records.len(),
{
    if records.len() > 0 {
        let rest = records.drop_first();
        assert forall|i: int| 0 <= i < rest.len() implies (#[trigger] rest[i]).name != name by {
            assert(rest[i] == records[i + 1]);
        }
        lemma_find_none(rest, name);
    }
}

/// Looking up a name after a record was appended: what was found before is
/// still found; where nothing was found, the new record is, if it has the name.
pub proof fn lemma_find_push(records: Seq<RecordView>, record: RecordView, name: Seq<char>)
    ensures
        find_spec(records.push(record), name) == match find_spec(records, name) {
            Some(found) => Some(found),
            None => if record.name == name {
                Some(record)
            } else {
                None
            },
        },
    decreases records.len(),
{
    let longer = records.push(record);
    if records.len() == 0 {
        assert(longer.drop_first() =~= Seq::<RecordView>::empty());
        assert(find_spec(longer.drop_first(), name) is None);
    } else {
        assert(longer[0] == records[0]);
        assert(longer.drop_first() =~= records.drop_first().push(record));
        lemma_find_push(records.drop_first(), record, name);
    }
}

/// After a record was added or replaced, looking up its name finds it, and it
/// is the only record of that name.
pub proof fn lemma_upsert_then_find(records: Seq<RecordView>, record: RecordView)
    ensures
        find_spec(upsert_spec(records, record), record.name) == Some(record),
        count_named(upsert_spec(records, record), record.name) == 1,
{
    let name = record.name;
    let rest = without_name(records, name);
    lemma_without_name(records, name);
    lemma_find_push(rest, record, name);
    let named = |r: RecordView| r.name == name;
    assert(rest.push(record).filter(named) =~= rest.filter(named).push(record)) by {
        reveal(Seq::filter);
        assert(rest.push(record).drop_last() =~= rest);
    }
}

/// Adding two records of one name, one after the other, leaves the second as
/// the only record of that name, and it is the one that is found.
pub proof fn lemma_upsert_twice(records: Seq<RecordView>, first: RecordView, second: RecordView)
    requires
        first.name == second.name,
    ensures
        find_spec(upsert_spec(upsert_spec(records, first), second), first.name) == Some(second),
        count_named(upsert_spec(upsert_spec(records, first), second), first.name) == 1,
{
    lemma_upsert_then_find(upsert_spec(records, first), second);
}

/// Adding or replacing a record changes nothing for the other names.
pub proof fn lemma_upsert_keeps_others(
    records: Seq<RecordView>,
    record: RecordView,
    name: Seq<char>,
)
    requires
        name != record.name,
    ensures
        find_spec(upsert_spec(records, record), name) == find_spec(records, name),
{
    lemma_find_without(records, record.name, name);
    lemma_find_push(without_name(records, record.name), record, name);
}

/// Removing the records of one name changes nothing for the other names.
pub proof fn lemma_find_without(records: Seq<RecordView>, removed: Seq<char>, name: Seq<char>)
    requires
        name != removed,
    ensures
        find_spec(without_name(records, removed), name) == find_spec(records, name),
    decreases records.len(),
{
    let keep = |r: RecordView| r.name != removed;
    if records.len() == 0 {
        assert(without_name(records, removed) =~= records) by {
            reveal(Seq::filter);
        }
    } else {
        let head = seq![records[0]];
        let tail = records.drop_first();
        assert(records =~= head + tail);
        Seq::filter_distributes_over_add(head, tail, keep);
        lemma_find_without(tail, removed, name);
        assert(head.filter(keep) =~= if keep(records[0]) {
            head
        } else {
            Seq::<RecordView>::empty()
        }) by {
            reveal_with_fuel(Seq::filter, 2);
            assert(head.drop_last() =~= Seq::<RecordView>::empty());
        }
        if keep(records[0]) {
            let kept = head + tail.filter(keep);
            assert(kept[0] == records[0]);
            assert(kept.drop_first() =~= tail.filter(keep));
        } else {
            assert(head.filter(keep) + tail.filter(keep) =~= tail.filter(keep));
        }
    }
}

/// A vault in which no two records have the same name stays so when a record
/// is added or replaced.
pub proof fn lemma_upsert_keeps_unique(records: Seq<RecordView>, record: RecordView)
    requires
        names_unique(records),
    ensures
        names_unique(upsert_spec(records, record)),
{
    let keep = |r: RecordView| r.name != record.name;
    let rest = without_name(records, record.name);
    lemma_without_name(records, record.name);
    lemma_filter_keeps_unique(records, record.name);
    let after = upsert_spec(records, record);
    assert forall|i: int, j: int| 0 <= i < j < after.len() implies (#[trigger] after[i]).name != (
    #[trigger] after[j]).name by {
        if j < rest.len() {
            assert(after[i] == rest[i]);
            assert(after[j] == rest[j]);
        } else {
            assert(after[i] == rest[i]);
            assert(after[j] == record);
        }
    }
}

/// Removing the records of one name keeps the names of the others distinct.
proof fn lemma_filter_keeps_unique(records: Seq<RecordView>, removed: Seq<char>)
    requires
        names_unique(records),
    ensures
        names_unique(without_name(records, removed)),
    decreases records.len(),
{
    reveal(Seq::filter);
    let keep = |r: RecordView| r.name != removed;
    if records.len() > 0 {
        let front = records.drop_last();
        assert forall|i: int, j: int| 0 <= i < j < front.len() implies (#[trigger] front[i]).name
            != (#[trigger] front[j]).name by {
            assert(front[i] == records[i]);
            assert(front[j] == records[j]);
        }
        lemma_filter_keeps_unique(front, removed);
        let kept = front.filter(keep);
        if keep(records.last()) {
            let after = kept.push(records.last());
            assert forall|i: int, j: int| 0 <= i < j < after.len() implies (#[trigger] after[i]).name
                != (#[trigger] after[j]).name by {
                if j == kept.len() {
                    front.lemma_filter_contains_rev(keep, kept[i]);
                    let k = choose|k: int| 0 <= k < front.len() && front[k] == kept[i];
                    assert(records[k] == kept[i]);
                    assert(records[records.len() - 1] == after[j]);
                } else {
                    assert(after[i] == kept[i]);
                    assert(after[j] == kept[j]);
                }
            }
        }
    }
}

} // verus!
