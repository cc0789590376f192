use vstd::prelude::*;

verus! {

use vstd::string::StrSliceExecFns;
use vstd::string::StringExecFns;
use crate::plan::PlanEntry;
use crate::plan::EntryView;
use crate::plan::PlanDate;
use crate::plan::entry_views;
use crate::plan::date_key_chars;
use crate::plan::spec_date_key;
use crate::plan::subplan_format_date;
use crate::plan::lemma_date_key_chars;

/// The pair of values proving an authenticated portal session, extracted from
/// the two login cookies. Immutable once created; replaced wholesale on
/// re-login, never mutated field by field.
pub struct SphAuthentication {
    pub sid: String,
    pub sph_session: String,
}

/// A login failed to yield a usable credential: one of the two required
/// cookies was absent from the response.
#[derive(Debug)]
pub enum AuthError {
    MissingSid,
    MissingSession,
}

/// `i` is the position of the first '-' in `s`.
pub open spec fn is_first_dash(s: Seq<char>, i: int) -> bool {
    0 <= i < s.len() && s[i] == '-' && forall|k: int| 0 <= k < i ==> s[k] != '-'
}

/// The position of the first '-' in `s`.
pub open spec fn first_dash(s: Seq<char>) -> int {
    choose|i: int| is_first_dash(s, i)
}

proof fn lemma_first_dash_agrees(s: Seq<char>, i: int)
    requires
        is_first_dash(s, i),
    ensures
        first_dash(s) == i,
{
    let j = first_dash(s);
    assert(is_first_dash(s, j));
    if j < i {
        assert(s[j] != '-');
    }
    if i < j {
        assert(s[i] != '-');
    }
}

/// The part of a token before its first '-'.
pub open spec fn token_sid(t: Seq<char>) -> Seq<char>
    recommends
        t.contains('-'),
{
    t.subrange(0, first_dash(t))
}

/// The part of a token between its first '-' and the next one, or the end.
pub open spec fn token_session(t: Seq<char>) -> Seq<char>
    recommends
        t.contains('-'),
{
    let rest = t.subrange(first_dash(t) + 1, t.len() as int);
    if rest.contains('-') {
        rest.subrange(0, first_dash(rest))
    } else {
        rest
    }
}

/// The first '-' at or after `from`, if any.
fn find_dash_from(s: &str, from: usize) -> (r: Option<usize>)
    requires
        from <= s@.len(),
    ensures
        match r {
            Some(i) => from <= i < s@.len() && s@[i as int] == '-' && forall|k: int|
                from <= k < i ==> s@[k] != '-',
            None => forall|k: int| from <= k < s@.len() ==> s@[k] != '-',
        },
{
    let len = s.unicode_len();
    let mut i: usize = from;
    while i < len
        invariant
            from <= i <= len,
            len == s@.len(),
            forall|k: int| from <= k < i ==> s@[k] != '-',
        decreases len - i,
    {
        if s.get_char(i) == '-' {
            return Some(i);
        }
        i = i + 1;
    }
    None
}

impl SphAuthentication {
    /// The credential before any login: both parts empty.
    pub fn empty() -> (r: Self)
        ensures
            r.sid@ == Seq::<char>::empty(),
            r.sph_session@ == Seq::<char>::empty(),
    {
        SphAuthentication { sid: String::new(), sph_session: String::new() }
    }

    /// The cookie header carrying this credential:
    /// `SPH-Session=<sph_session>; sid=<sid>`.
    pub fn build_cookies(&self) -> (r: String)
        ensures
            r@ == "SPH-Session="@ + self.sph_session@ + "; sid="@ + self.sid@,
    {
        let mut s = "SPH-Session=".to_owned();
        s.append(self.sph_session.as_str());
        s.append("; sid=");
        s.append(self.sid.as_str());
        proof {
            assert(s@ =~= "SPH-Session="@ + self.sph_session@ + "; sid="@ + self.sid@);
        }
        s
    }

    /// Serializes the credential to one token string `<sid>-<sph_session>`.
    pub fn as_token(&self) -> (r: String)
        ensures
            r@ == self.sid@ + "-"@ + self.sph_session@,
    {
        let mut s = self.sid.clone();
        s.append("-");
        s.append(self.sph_session.as_str());
        proof {
            assert(s@ =~= self.sid@ + "-"@ + self.sph_session@);
        }
        s
    }

    /// Wraps the two cookie values as a credential.
    pub fn from_cookies(sid: String, sph_session: String) -> (r: Self)
        ensures
            r.sid == sid,
            r.sph_session == sph_session,
    {
        SphAuthentication { sid, sph_session }
    }

    /// Reads a credential back from a token `<sid>-<sph_session>`: the part
    /// before the first '-' and the part up to the next '-' or the end.
    pub fn from_token(token: &str) -> (r: Self)
        requires
            token@.contains('-'),
        ensures
            r.sid@ == token_sid(token@),
            r.sph_session@ == token_session(token@),
    {
        let len = token.unicode_len();
        let found = find_dash_from(token, 0);
        proof {
            if found is None {
                let w = choose|k: int| 0 <= k < token@.len() && token@[k] == '-';
                assert(token@[w] != '-');
            }
        }
        let i = found.unwrap();
        let sid = token.substring_char(0, i).to_owned();
        proof {
            lemma_first_dash_agrees(token@, i as int);
        }
        let after = find_dash_from(token, i + 1);
        let j = match after {
            Some(j) => j,
            None => len,
        };
        let sph_session = token.substring_char(i + 1, j).to_owned();
        proof {
            let rest = token@.subrange(i + 1, token@.len() as int);
            match after {
                Some(jj) => {
                    let m = jj - i - 1;
                    assert(rest[m] == token@[jj as int]);
                    assert forall|k: int| 0 <= k < m implies rest[k] != '-' by {
                        assert(rest[k] == token@[i + 1 + k]);
                    }
                    assert(is_first_dash(rest, m));
                    assert(rest.contains('-'));
                    lemma_first_dash_agrees(rest, m);
                    assert(rest.subrange(0, m) =~= token@.subrange(i + 1, jj as int));
                },
                None => {
                    if rest.contains('-') {
                        let w = choose|k: int| 0 <= k < rest.len() && rest[k] == '-';
                        assert(rest[w] == token@[i + 1 + w]);
                        assert(false);
                    }
                    assert(rest =~= token@.subrange(i + 1, len as int));
                },
            }
        }
        SphAuthentication { sid, sph_session }
    }
}

/// Law: the token round-trips. A credential whose parts hold no '-' is read
/// back unchanged from the token it serializes to.
pub proof fn lemma_token_round_trip(sid: Seq<char>, session: Seq<char>)
    requires
        !sid.contains('-'),
        !session.contains('-'),
    ensures
        (sid + seq!['-'] + session).contains('-'),
        token_sid(sid + seq!['-'] + session) == sid,
        token_session(sid + seq!['-'] + session) == session,
{
    let t = sid + seq!['-'] + session;
    let n = sid.len() as int;
    assert(t[n] == '-');
    assert(t.contains('-'));
    assert forall|k: int| 0 <= k < n implies t[k] != '-' by {
        assert(t[k] == sid[k]);
        if t[k] == '-' {
            assert(sid.contains('-'));
        }
    }
    assert(is_first_dash(t, n));
    lemma_first_dash_agrees(t, n);
    assert(t.subrange(0, n) =~= sid);
    let rest = t.subrange(n + 1, t.len() as int);
    assert(rest =~= session);
    if rest.contains('-') {
        let w = choose|k: int| 0 <= k < rest.len() && rest[k] == '-';
        assert(session[w] == '-');
        assert(session.contains('-'));
        assert(false);
    }
}

/// The outcome the portal login yields for given cookie values: a credential
/// when both required cookies were present, else which one was missing. The
/// root-domain cookie (`sid`) is demanded first, as the portal's contract
/// names it first.
pub fn login_outcome(sid: Option<String>, sph_session: Option<String>) -> (r: Result<
    SphAuthentication,
    AuthError,
>)
    ensures
        match r {
            Ok(a) => (sid matches Some(s) && a.sid == s) && (sph_session matches Some(p)
                && a.sph_session == p),
            Err(e) => match e {
                AuthError::MissingSid => sid is None,
                AuthError::MissingSession => sid is Some && sph_session is None,
            },
        },
{
    match sid {
        None => Err(AuthError::MissingSid),
        Some(s) => match sph_session {
            None => Err(AuthError::MissingSession),
            Some(p) => Ok(SphAuthentication { sid: s, sph_session: p }),
        },
    }
}

/// Whether a validity probe's response cookie proves the session alive: any
/// value but the "unauthenticated" sentinel "0" counts as valid.
pub fn session_is_valid(cookie_i: &String) -> (r: bool)
    ensures
        r == (cookie_i@ != "0"@),
{
    let sentinel: String = "0".to_owned();
    !(*cookie_i == sentinel)
}

/// What scraper's selection yields on a plan page: for each row of the table
/// whose id is "vtable" followed by the date key, the text of each "td" cell,
/// in document order, untrimmed.
pub uninterp spec fn subplan_rows_of(html: Seq<char>, date: Seq<char>) -> Seq<Seq<Seq<char>>>;

/// What str::trim returns for a string: it without its leading and trailing
/// whitespace.
pub uninterp spec fn trimmed_of(s: Seq<char>) -> Seq<char>;

/// Relies on scraper (Html::parse_document, Selector::parse, Html::select,
/// ElementRef::select, ElementRef::text): collects the cell texts of each row
/// under the date's table. Document parsing never fails; an absent or empty
/// table yields no rows; the selector for a key of digits and underscores
/// always parses. The result depends on the two arguments alone.
#[verifier::external_body]
fn select_subplan_rows(html: &str, date: &str) -> (rows: Vec<Vec<String>>)
    requires
        date_key_chars(date@),
    ensures
        rows.deep_view() == subplan_rows_of(html@, date@),
{
    let page = scraper::Html::parse_document(html);
    let row_selector = scraper::Selector::parse(&format!("#vtable{} > tbody > tr", date)).unwrap();
    let cell_selector = scraper::Selector::parse("td").unwrap();
    page.select(&row_selector).map(
        |row| row.select(&cell_selector).map(|cell| cell.text().collect::<String>()).collect(),
    ).collect()
}

/// Relies on str::trim: the result is the input without leading and trailing
/// whitespace, a contiguous part of it; it depends on the characters alone.
#[verifier::external_body]
fn trim_string(s: &String) -> (r: String)
    ensures
        r@ == trimmed_of(s@),
        r@.len() <= s@.len(),
{
    s.trim().to_owned()
}

/// Field `k` of a row: its cell text trimmed, or empty where the row is short.
pub open spec fn cell_of(row: Seq<Seq<char>>, k: int) -> Seq<char> {
    if 0 <= k < row.len() {
        trimmed_of(row[k])
    } else {
        Seq::empty()
    }
}

/// The entry a raw row maps to: its cells trimmed and placed positionally,
/// missing trailing cells as empty strings.
pub open spec fn entry_of_row(row: Seq<Seq<char>>) -> EntryView {
    EntryView {
        period: cell_of(row, 0),
        slot: cell_of(row, 1),
        teacher: cell_of(row, 2),
        entry_type: cell_of(row, 3),
        class: cell_of(row, 4),
        new_room: cell_of(row, 5),
        old_room: cell_of(row, 6),
        note: cell_of(row, 7),
    }
}

/// The entries of a day's raw rows: each row of at most eight cells mapped
/// positionally; a row of more cells has no expected shape and is skipped.
pub open spec fn entries_of_rows(rows: Seq<Seq<Seq<char>>>) -> Seq<EntryView>
    decreases rows.len(),
{
    if rows.len() == 0 {
        Seq::empty()
    } else {
        entries_of_rows(rows.drop_last()) + if rows.last().len() <= 8 {
            seq![entry_of_row(rows.last())]
        } else {
            Seq::empty()
        }
    }
}

/// Cell `k` of `cells`, trimmed; the empty string past the end.
fn cell_at(cells: &Vec<String>, k: usize) -> (r: String)
    ensures
        r@ == cell_of(cells.deep_view(), k as int),
{
    if k < cells.len() {
        let r = trim_string(&cells[k]);
        proof {
            assert(cells.deep_view()[k as int] == cells@[k as int]@);
        }
        r
    } else {
        String::new()
    }
}

/// Maps one raw row into an entry; a row of more than eight cells has no
/// expected shape and yields none.
pub fn entry_from_cells(cells: &Vec<String>) -> (r: Option<PlanEntry>)
    ensures
        cells@.len() <= 8 ==> (r matches Some(e) && e@ == entry_of_row(cells.deep_view())),
        cells@.len() > 8 ==> r is None,
{
    if cells.len() > 8 {
        None
    } else {
        let e = PlanEntry {
            period: cell_at(cells, 0),
            slot: cell_at(cells, 1),
            teacher: cell_at(cells, 2),
            entry_type: cell_at(cells, 3),
            class: cell_at(cells, 4),
            new_room: cell_at(cells, 5),
            old_room: cell_at(cells, 6),
            note: cell_at(cells, 7),
        };
        proof {
            assert(e@ =~= entry_of_row(cells.deep_view()));
        }
        Some(e)
    }
}

/// Extracts the plan table for the given date key from a page: scraper's rows
/// mapped and trimmed positionally into eight-field entries. An absent or
/// empty table gives the empty sequence.
pub fn parse_subplan(html: &str, date: &str) -> (entries: Vec<PlanEntry>)
    requires
        date_key_chars(date@),
    ensures
        entry_views(entries@) == entries_of_rows(subplan_rows_of(html@, date@)),
{
    let rows = select_subplan_rows(html, date);
    let ghost rows_v = rows.deep_view();
    let mut entries: Vec<PlanEntry> = Vec::new();
    let mut i: usize = 0;
    while i < rows.len()
        invariant
            rows.deep_view() == rows_v,
            rows_v == subplan_rows_of(html@, date@),
            i <= rows@.len(),
            rows_v.len() == rows@.len(),
            entry_views(entries@) == entries_of_rows(rows_v.take(i as int)),
        decreases rows@.len() - i,
    {
        let r = entry_from_cells(&rows[i]);
        proof {
            assert(rows_v[i as int] == rows@[i as int].deep_view());
            assert(rows_v.take(i + 1).drop_last() =~= rows_v.take(i as int));
            assert(rows_v.take(i + 1).last() == rows_v[i as int]);
        }
        match r {
            Some(e) => {
                entries.push(e);
                proof {
                    assert(entry_views(entries@) =~= entries_of_rows(rows_v.take(i + 1)));
                }
            },
            None => {
                proof {
                    assert(entry_views(entries@) =~= entries_of_rows(rows_v.take(i + 1)));
                }
            },
        }
        i = i + 1;
    }
    proof {
        assert(rows_v.take(rows@.len() as int) =~= rows_v);
    }
    entries
}

/// Extracts the plan table for a date from a page: the date names the table
/// through its key, and the key a date renders to is always a well-formed
/// selector part.
pub fn parse_subplan_dated(html: &str, date: &PlanDate) -> (entries: Vec<PlanEntry>)
    ensures
        entry_views(entries@) == entries_of_rows(subplan_rows_of(html@, spec_date_key(*date))),
{
    let key = subplan_format_date(date);
    proof {
        lemma_date_key_chars(*date);
    }
    parse_subplan(html, key.as_str())
}

} // verus!
