use vstd::prelude::*;

verus! {

use vstd::string::StringExecFns;
use crate::strutil::dec_str;
use crate::strutil::dec2_str;
use crate::strutil::digit_char;
use crate::strutil::u32_to_dec;
use crate::strutil::u32_to_dec2;

/// One row of the daily substitution table, in its eight fixed positions:
/// period, an unused slot, teacher, entry type, class or subject, new room,
/// old room, note. Missing trailing cells default to the empty string.
pub struct PlanEntry {
    pub period: String,
    pub slot: String,
    pub teacher: String,
    pub entry_type: String,
    pub class: String,
    pub new_room: String,
    pub old_room: String,
    pub note: String,
}

/// The mathematical value of a `PlanEntry`: its eight fields as character
/// sequences. Equality is field-wise exact match.
#[verifier::ext_equal]
pub struct EntryView {
    pub period: Seq<char>,
    pub slot: Seq<char>,
    pub teacher: Seq<char>,
    pub entry_type: Seq<char>,
    pub class: Seq<char>,
    pub new_room: Seq<char>,
    pub old_room: Seq<char>,
    pub note: Seq<char>,
}

impl View for PlanEntry {
    type V = EntryView;

    open spec fn view(&self) -> EntryView {
        EntryView {
            period: self.period@,
            slot: self.slot@,
            teacher: self.teacher@,
            entry_type: self.entry_type@,
            class: self.class@,
            new_room: self.new_room@,
            old_room: self.old_room@,
            note: self.note@,
        }
    }
}

impl Clone for PlanEntry {
    fn clone(&self) -> (r: Self)
        ensures
            r == *self,
    {
        PlanEntry {
            period: self.period.clone(),
            slot: self.slot.clone(),
            teacher: self.teacher.clone(),
            entry_type: self.entry_type.clone(),
            class: self.class.clone(),
            new_room: self.new_room.clone(),
            old_room: self.old_room.clone(),
            note: self.note.clone(),
        }
    }
}

/// The views of a sequence of entries, in order.
pub open spec fn entry_views(s: Seq<PlanEntry>) -> Seq<EntryView> {
    s.map_values(|e: PlanEntry| e@)
}

/// Whether two entries hold the same eight field values.
pub fn entry_eq(a: &PlanEntry, b: &PlanEntry) -> (r: bool)
    ensures
        r == (a@ == b@),
{
    let r = a.period == b.period && a.slot == b.slot && a.teacher == b.teacher && a.entry_type
        == b.entry_type && a.class == b.class && a.new_room == b.new_room && a.old_room
        == b.old_room && a.note == b.note;
    proof {
        if r {
            assert(a@ =~= b@);
        }
    }
    r
}

/// A calendar date, as plain year, month and day numbers.
#[derive(PartialEq, Eq, Structural, Clone, Copy, Debug)]
pub struct PlanDate {
    pub year: u32,
    pub month: u32,
    pub day: u32,
}

/// The date key that names the day's table: day and month zero-padded to two
/// digits, then the year, separated by underscores.
pub open spec fn spec_date_key(d: PlanDate) -> Seq<char> {
    dec2_str(d.day as nat) + seq!['_'] + dec2_str(d.month as nat) + seq!['_'] + dec_str(
        d.year as nat,
    )
}

/// Renders the date key used to look a day's table up.
pub fn subplan_format_date(date: &PlanDate) -> (r: String)
    ensures
        r@ == spec_date_key(*date),
{
    let mut s = u32_to_dec2(date.day);
    s.append("_");
    let m = u32_to_dec2(date.month);
    s.append(m.as_str());
    s.append("_");
    let y = u32_to_dec(date.year);
    s.append(y.as_str());
    proof {
        reveal_strlit("_");
        assert(s@ =~= spec_date_key(*date));
    }
    s
}

/// A character that may stand in a date key.
pub open spec fn is_date_key_char(c: char) -> bool {
    c == '_' || exists|d: int| 0 <= d < 10 && c == #[trigger] digit_char(d)
}

/// Every character of a date key is a digit or an underscore.
pub open spec fn date_key_chars(s: Seq<char>) -> bool {
    forall|i: int| 0 <= i < s.len() ==> is_date_key_char(#[trigger] s[i])
}

proof fn lemma_dec_str_digits(n: nat)
    ensures
        forall|i: int|
            0 <= i < dec_str(n).len() ==> exists|d: int|
                0 <= d < 10 && #[trigger] dec_str(n)[i] == digit_char(d),
    decreases n,
{
    if n >= 10 {
        lemma_dec_str_digits(n / 10);
        assert forall|i: int| 0 <= i < dec_str(n).len() implies exists|d: int|
            0 <= d < 10 && #[trigger] dec_str(n)[i] == digit_char(d) by {
            if i < dec_str(n / 10).len() {
                assert(dec_str(n)[i] == dec_str(n / 10)[i]);
            } else {
                assert(dec_str(n)[i] == digit_char((n % 10) as int));
            }
        }
    }
}

/// A date key holds only digits and underscores.
pub proof fn lemma_date_key_chars(d: PlanDate)
    ensures
        date_key_chars(spec_date_key(d)),
{
    lemma_dec_str_digits(d.day as nat);
    lemma_dec_str_digits(d.month as nat);
    lemma_dec_str_digits(d.year as nat);
    let s = spec_date_key(d);
    assert forall|i: int| 0 <= i < s.len() implies is_date_key_char(#[trigger] s[i]) by {
        let a = dec2_str(d.day as nat);
        let b = dec2_str(d.month as nat);
        let c = dec_str(d.year as nat);
        if i < a.len() {
            if d.day < 10 {
                if i == 0 {
                    assert(s[i] == '0');
                    assert('0' == digit_char(0));
                } else {
                    assert(s[i] == dec_str(d.day as nat)[i - 1]);
                }
            } else {
                assert(s[i] == dec_str(d.day as nat)[i]);
            }
        } else if i == a.len() {
            assert(s[i] == '_');
        } else if i < a.len() + 1 + b.len() {
            let j = i - a.len() - 1;
            if d.month < 10 {
                if j == 0 {
                    assert(s[i] == '0');
                    assert('0' == digit_char(0));
                } else {
                    assert(s[i] == dec_str(d.month as nat)[j - 1]);
                }
            } else {
                assert(s[i] == dec_str(d.month as nat)[j]);
            }
        } else if i == a.len() + 1 + b.len() {
            assert(s[i] == '_');
        } else {
            assert(s[i] == c[i - a.len() - 1 - b.len() - 1]);
        }
    }
}

} // verus!
