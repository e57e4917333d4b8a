//! The session model: identifiers, sessions, pages of sessions, their
//! recency order, project labels and relative ages.

use crate::text::{
    chars_of, compare_text, decimal, is_whitespace, is_whitespace_char, push_char, push_decimal,
    text_lt, TextOrder,
};
use std::time::SystemTime;
use vstd::prelude::*;

verus! {

/// A point in time, as `std::time::SystemTime` holds it.
#[verifier::external_type_specification]
#[verifier::external_body]
pub struct ExSystemTime(SystemTime);

/// Every character of `s` is white space (so `s.trim()` is empty).
pub open spec fn all_whitespace(s: Seq<char>) -> bool {
    forall|i: int| 0 <= i < s.len() ==> is_whitespace_char(#[trigger] s[i])
}

/// The identifier of a Codex session: text that is not blank.
#[derive(Debug, Eq, Hash, PartialEq)]
pub struct SessionId(String);

impl View for SessionId {
    type V = Seq<char>;

    closed spec fn view(&self) -> Seq<char> {
        self.0@
    }
}

impl Clone for SessionId {
    fn clone(&self) -> (r: Self)
        ensures
            r == *self,
    {
        SessionId(self.0.clone())
    }
}

/// The message of the error that `SessionId::new` returns.
pub open spec fn empty_id_message() -> Seq<char> {
    seq!['s', 'e', 's', 's', 'i', 'o', 'n', ' ', 'i', 'd', ' ', 'i', 's', ' ', 'e', 'm', 'p', 't', 'y']
}

/// An error in building a domain value.
#[derive(Clone, Debug, Eq, PartialEq)]
pub struct DomainError(&'static str);

impl View for DomainError {
    type V = Seq<char>;

    closed spec fn view(&self) -> Seq<char> {
        self.0@
    }
}

impl DomainError {
    /// The error's message.
    pub fn message(&self) -> (r: &'static str)
        ensures
            r@ == self@,
    {
        self.0
    }
}

impl SessionId {
    /// An identifier with the text `value`, unless `value` is empty or white
    /// space only.
    pub fn new(value: &str) -> (r: Result<Self, DomainError>)
        ensures
            r is Ok <==> !all_whitespace(value@),
            r matches Ok(id) ==> id@ == value@,
            r matches Err(e) ==> e@ == empty_id_message(),
    {
        let characters = chars_of(value);
        let mut i: usize = 0;
        while i < characters.len()
            invariant
                characters@ == value@,
                i <= characters@.len(),
                forall|k: int| 0 <= k < i ==> is_whitespace_char(#[trigger] characters@[k]),
            decreases characters@.len() - i,
        {
            if !is_whitespace(characters[i]) {
                return Ok(SessionId(value.to_owned()));
            }
            i = i + 1;
        }
        proof {
            reveal_strlit("session id is empty");
        }
        Err(DomainError("session id is empty"))
    }

    /// The identifier's text.
    pub fn as_str(&self) -> (r: &str)
        ensures
            r@ == self@,
    {
        self.0.as_str()
    }

    /// Whether two identifiers have the same text.
    pub fn same_as(&self, other: &SessionId) -> (r: bool)
        ensures
            r == (self@ == other@),
    {
        self.0 == other.0
    }
}

/// A Codex session as the browser shows it.
#[derive(Debug, Eq, PartialEq)]
pub struct Session {
    pub id: SessionId,
    pub name: Option<String>,
    pub preview: String,
    pub cwd: String,
    pub created_at: i64,
    pub updated_at: i64,
    pub recency_at: i64,
    pub provider: String,
    pub status: String,
    pub branch: Option<String>,
}

impl Clone for Session {
    fn clone(&self) -> (r: Self)
        ensures
            r == *self,
    {
        Session {
            id: self.id.clone(),
            name: match &self.name {
                Some(n) => Some(n.clone()),
                None => None,
            },
            preview: self.preview.clone(),
            cwd: self.cwd.clone(),
            created_at: self.created_at,
            updated_at: self.updated_at,
            recency_at: self.recency_at,
            provider: self.provider.clone(),
            status: self.status.clone(),
            branch: match &self.branch {
                Some(b) => Some(b.clone()),
                None => None,
            },
        }
    }
}

/// The file name of a path, as `Path::file_name` finds it (its last normal
/// component), taken as text; none where the path has no such component.
pub uninterp spec fn path_file_name(path: Seq<char>) -> Option<Seq<char>>;

/// The last normal component of the path `cwd`, by `Path::file_name`.
#[verifier::external_body]
fn file_name_of(cwd: &str) -> (r: Option<String>)
    ensures
        r matches Some(n) ==> path_file_name(cwd@) == Some(n@),
        r is None ==> path_file_name(cwd@) is None,
{
    std::path::Path::new(cwd).file_name().and_then(|name| name.to_str()).map(|name| name.to_owned())
}

/// The label of the project that a working directory stands for: its file
/// name, or the whole path where it has no non-empty file name.
pub open spec fn project_label_of(cwd: Seq<char>) -> Seq<char> {
    match path_file_name(cwd) {
        Some(name) => if name.len() > 0 {
            name
        } else {
            cwd
        },
        None => cwd,
    }
}

/// The project label of the working directory `cwd`, where no home
/// directory is known: the home directory is not told apart here, so it is
/// labelled by its last component; `project_label_in` labels it "Workspace".
pub fn project_label(cwd: &str) -> (r: String)
    ensures
        r@ == project_label_of(cwd@),
{
    match file_name_of(cwd) {
        Some(name) => {
            if !name.as_str().is_empty() {
                name
            } else {
                cwd.to_owned()
            }
        },
        None => cwd.to_owned(),
    }
}

/// A path without one trailing `/` (the root stays as it is).
pub open spec fn without_trailing_slash(path: Seq<char>) -> Seq<char> {
    if path.len() > 1 && path.last() == '/' {
        path.drop_last()
    } else {
        path
    }
}

/// The project label of the working directory `cwd` for a user whose home
/// directory is `home`: "Workspace" for the home directory itself (never
/// the account-name folder), else the project label of `cwd`.
pub open spec fn project_label_at(cwd: Seq<char>, home: Option<Seq<char>>) -> Seq<char> {
    match home {
        Some(h) => if without_trailing_slash(cwd) == without_trailing_slash(h) {
            "Workspace"@
        } else {
            project_label_of(cwd)
        },
        None => project_label_of(cwd),
    }
}

/// `path` without one trailing `/`, as characters.
fn trimmed_chars(path: &str) -> (r: Vec<char>)
    ensures
        r@ == without_trailing_slash(path@),
{
    let mut characters = chars_of(path);
    if characters.len() > 1 && characters[characters.len() - 1] == '/' {
        characters.pop();
    }
    characters
}

/// Whether two paths name the same directory, up to one trailing `/`.
fn same_directory(a: &str, b: &str) -> (r: bool)
    ensures
        r == (without_trailing_slash(a@) == without_trailing_slash(b@)),
{
    let x = trimmed_chars(a);
    let y = trimmed_chars(b);
    if x.len() != y.len() {
        return false;
    }
    let mut i: usize = 0;
    while i < x.len()
        invariant
            x@.len() == y@.len(),
            x@ == without_trailing_slash(a@),
            y@ == without_trailing_slash(b@),
            i <= x@.len(),
            forall|k: int| 0 <= k < i ==> x@[k] == y@[k],
        decreases x@.len() - i,
    {
        if x[i] != y[i] {
            assert(x@[i as int] != y@[i as int]);
            return false;
        }
        i = i + 1;
    }
    assert(x@ =~= y@);
    true
}

/// The project label of the working directory `cwd` for a user whose home
/// directory is `home`: "Workspace" for the home directory itself.
pub fn project_label_in(cwd: &str, home: Option<&str>) -> (r: String)
    ensures
        r@ == project_label_at(cwd@, match home {
            Some(h) => Some(h@),
            None => None,
        }),
{
    match home {
        Some(h) => if same_directory(cwd, h) {
            String::from_str("Workspace")
        } else {
            project_label(cwd)
        },
        None => project_label(cwd),
    }
}

impl Session {
    /// The label of the session's project, where no home directory is known
    /// (see `project_label`; `project_label_in` tells the home directory
    /// apart).
    pub fn project_label(&self) -> (r: String)
        ensures
            r@ == project_label_of(self.cwd@),
    {
        project_label(&self.cwd)
    }
}

/// `a` comes strictly before `b` in recency order: more recent first, then
/// more recently updated first, then by identifier.
pub open spec fn precedes(a: Session, b: Session) -> bool {
    ||| a.recency_at > b.recency_at
    ||| a.recency_at == b.recency_at && a.updated_at > b.updated_at
    ||| a.recency_at == b.recency_at && a.updated_at == b.updated_at && text_lt(a.id@, b.id@)
}

/// `x` placed into `s` before the first session that it precedes (after all
/// the others, so that sessions in the same place keep their order).
pub open spec fn insert_by_recency(s: Seq<Session>, x: Session) -> Seq<Session>
    decreases s.len(),
{
    if s.len() == 0 {
        seq![x]
    } else if precedes(x, s[0]) {
        seq![x] + s
    } else {
        seq![s[0]] + insert_by_recency(s.drop_first(), x)
    }
}

/// `s` in recency order, by a stable sort.
pub open spec fn sorted_by_recency(s: Seq<Session>) -> Seq<Session>
    decreases s.len(),
{
    if s.len() == 0 {
        s
    } else {
        insert_by_recency(sorted_by_recency(s.drop_last()), s.last())
    }
}

/// Whether `a` comes strictly before `b` in recency order.
pub fn precedes_exec(a: &Session, b: &Session) -> (r: bool)
    ensures
        r == precedes(*a, *b),
{
    if a.recency_at != b.recency_at {
        return a.recency_at > b.recency_at;
    }
    if a.updated_at != b.updated_at {
        return a.updated_at > b.updated_at;
    }
    match compare_text(a.id.as_str(), b.id.as_str()) {
        TextOrder::Less => true,
        _ => false,
    }
}

proof fn lemma_insert_at(s: Seq<Session>, x: Session, p: int)
    requires
        0 <= p <= s.len(),
        forall|j: int| 0 <= j < p ==> !precedes(x, #[trigger] s[j]),
        p < s.len() ==> precedes(x, s[p]),
    ensures
        insert_by_recency(s, x) == s.take(p) + seq![x] + s.skip(p),
    decreases s.len(),
{
    if s.len() == 0 {
        assert(s.take(p) + seq![x] + s.skip(p) =~= seq![x]);
    } else if p == 0 {
        assert(s.take(p) + seq![x] + s.skip(p) =~= seq![x] + s);
    } else {
        let t = s.drop_first();
        assert forall|j: int| 0 <= j < p - 1 implies !precedes(x, #[trigger] t[j]) by {
            assert(t[j] == s[j + 1]);
        }
        if p < s.len() {
            assert(t[p - 1] == s[p]);
        }
        lemma_insert_at(t, x, p - 1);
        assert(seq![s[0]] + (t.take(p - 1) + seq![x] + t.skip(p - 1)) =~= s.take(p) + seq![x]
            + s.skip(p));
    }
}

/// `x` placed into the recency-ordered `sorted`, as `insert_by_recency` says.
fn insert_session(sorted: &mut Vec<Session>, x: Session)
    ensures
        final(sorted)@ == insert_by_recency(old(sorted)@, x),
{
    let mut p: usize = 0;
    while p < sorted.len() && !precedes_exec(&x, &sorted[p])
        invariant
            p <= sorted@.len(),
            sorted@ == old(sorted)@,
            forall|j: int| 0 <= j < p ==> !precedes(x, #[trigger] sorted@[j]),
        decreases sorted@.len() - p,
    {
        p = p + 1;
    }
    proof {
        lemma_insert_at(sorted@, x, p as int);
    }
    sorted.insert(p, x);
    assert(sorted@ =~= old(sorted)@.take(p as int) + seq![x] + old(sorted)@.skip(p as int));
}

/// The sessions in recency order: most recent first, then most recently
/// updated, then by identifier; a stable sort.
pub fn sort_sessions(sessions: Vec<Session>) -> (r: Vec<Session>)
    ensures
        r@ == sorted_by_recency(sessions@),
{
    let ghost original = sessions@;
    let mut input = sessions;
    let mut out: Vec<Session> = Vec::new();
    let ghost mut k: int = 0;
    assert(original.take(0) =~= Seq::<Session>::empty());
    assert(original.skip(0) =~= original);
    while input.len() > 0
        invariant
            0 <= k <= original.len(),
            input@ == original.skip(k),
            out@ == sorted_by_recency(original.take(k)),
        decreases input@.len(),
    {
        let x = input.remove(0);
        proof {
            assert(original.take(k + 1).drop_last() =~= original.take(k));
            assert(original.take(k + 1).last() == x);
        }
        insert_session(&mut out, x);
        proof {
            assert(input@ =~= original.skip(k + 1));
            k = k + 1;
        }
    }
    assert(original.take(k) =~= original);
    out
}

/// One page of sessions and the cursor of the next page, if any.
#[derive(Clone, Debug, Eq, PartialEq)]
pub struct SessionPage {
    pub sessions: Vec<Session>,
    pub next_cursor: Option<String>,
}

impl SessionPage {
    /// Puts the page's sessions in recency order.
    pub fn sort_by_recency(&mut self)
        ensures
            final(self).sessions@ == sorted_by_recency(old(self).sessions@),
            final(self).next_cursor == old(self).next_cursor,
    {
        let mut taken: Vec<Session> = Vec::new();
        std::mem::swap(&mut taken, &mut self.sessions);
        self.sessions = sort_sessions(taken);
    }
}

/// How many seconds lie between `timestamp` and `now`, as the age of a
/// session counts them: `now - timestamp` saturated to `i64`, and never below
/// zero.
pub open spec fn age_seconds(timestamp: i64, now: i64) -> int {
    let difference = now - timestamp;
    if difference < 0 {
        0
    } else if difference > i64::MAX {
        i64::MAX as int
    } else {
        difference
    }
}

/// The compact relative age for `seconds`: "now" under a minute, then whole
/// minutes ("m"), hours ("h"), days ("d") and 30-day months ("mo").
pub open spec fn age_text(seconds: nat) -> Seq<char> {
    if seconds < 60 {
        seq!['n', 'o', 'w']
    } else if seconds < 3_600 {
        decimal(seconds / 60).push('m')
    } else if seconds < 86_400 {
        decimal(seconds / 3_600).push('h')
    } else if seconds < 2_592_000 {
        decimal(seconds / 86_400).push('d')
    } else {
        decimal(seconds / 2_592_000).push('m').push('o')
    }
}

proof fn lemma_decimal_leads(n: nat)
    requires
        n >= 1,
    ensures
        decimal(n).len() >= 1,
        decimal(n)[0] != '0',
    decreases n,
{
    if n >= 10 {
        lemma_decimal_leads(n / 10);
        let head = decimal(n / 10);
        assert(decimal(n)[0] == head[0]);
    }
}

/// An age reads in the largest unit it holds at least one of: "now" under a
/// minute, whole minutes under an hour, whole hours under a day, whole days
/// under thirty days, and 30-day months only from thirty days on; and a
/// count shown never starts with a zero, so no age reads "0" of a unit.
pub proof fn lemma_age_units(s: nat)
    ensures
        s < 60 ==> age_text(s) == seq!['n', 'o', 'w'],
        60 <= s < 3_600 ==> age_text(s) == decimal(s / 60).push('m'),
        3_600 <= s < 86_400 ==> age_text(s) == decimal(s / 3_600).push('h'),
        86_400 <= s < 2_592_000 ==> age_text(s) == decimal(s / 86_400).push('d'),
        (age_text(s).len() >= 2 && age_text(s).last() == 'o' && age_text(s)[age_text(s).len() - 2]
            == 'm') <==> s >= 2_592_000,
        s >= 60 ==> age_text(s)[0] != '0',
{
    if s >= 60 {
        let unit: nat = if s < 3_600 {
            60
        } else if s < 86_400 {
            3_600
        } else if s < 2_592_000 {
            86_400
        } else {
            2_592_000
        };
        assert(s / unit >= 1) by (nonlinear_arith)
            requires
                s >= unit,
                unit > 0,
        ;
        lemma_decimal_leads(s / unit);
        if s >= 2_592_000 {
            let count = decimal(s / 2_592_000);
            assert(age_text(s) == count.push('m').push('o'));
            assert(age_text(s)[0] == count[0]);
        } else {
            assert(age_text(s)[0] == decimal(s / unit)[0]);
        }
    }
}

/// The age of something stamped `timestamp`, seen at `now_seconds` (both in
/// seconds since the Unix epoch).
pub fn format_age_at(timestamp: i64, now_seconds: i64) -> (r: String)
    ensures
        r@ == age_text(age_seconds(timestamp, now_seconds) as nat),
{
    let seconds: u64 = if now_seconds <= timestamp {
        0
    } else if timestamp >= 0 || now_seconds < i64::MAX + timestamp {
        (now_seconds - timestamp) as u64
    } else {
        i64::MAX as u64
    };
    assert(seconds == age_seconds(timestamp, now_seconds));
    let mut out = String::new();
    if seconds < 60 {
        push_char(&mut out, 'n');
        push_char(&mut out, 'o');
        push_char(&mut out, 'w');
        assert(out@ =~= seq!['n', 'o', 'w']);
    } else if seconds < 3_600 {
        push_decimal(&mut out, seconds / 60);
        push_char(&mut out, 'm');
    } else if seconds < 86_400 {
        push_decimal(&mut out, seconds / 3_600);
        push_char(&mut out, 'h');
    } else if seconds < 2_592_000 {
        push_decimal(&mut out, seconds / 86_400);
        push_char(&mut out, 'd');
    } else {
        push_decimal(&mut out, seconds / 2_592_000);
        push_char(&mut out, 'm');
        push_char(&mut out, 'o');
    }
    out
}

/// A timestamp at or after the time it is seen at reads "now".
pub proof fn lemma_future_reads_now(timestamp: i64, now_seconds: i64)
    requires
        timestamp >= now_seconds,
    ensures
        age_text(age_seconds(timestamp, now_seconds) as nat) == seq!['n', 'o', 'w'],
{
}

/// Whole seconds from the Unix epoch to the time `now`, or none where it
/// lies before the epoch, as `SystemTime::duration_since(UNIX_EPOCH)` and
/// `Duration::as_secs` give them.
pub uninterp spec fn epoch_seconds_of(now: SystemTime) -> Option<u64>;

/// Whole seconds from the Unix epoch to `now`, or none where `now` lies
/// before the epoch (`SystemTime::duration_since`).
#[verifier::external_body]
fn seconds_since_epoch(now: SystemTime) -> (r: Option<u64>)
    ensures
        r == epoch_seconds_of(now),
{
    match now.duration_since(std::time::UNIX_EPOCH) {
        Ok(duration) => Some(duration.as_secs()),
        Err(_) => None,
    }
}

/// The seconds since the Unix epoch that the age of a timestamp is taken
/// at, for the time `now`: zero before the epoch, and the whole seconds cast
/// to `i64` otherwise.
pub open spec fn now_seconds_of(now: SystemTime) -> i64 {
    match epoch_seconds_of(now) {
        Some(seconds) => seconds as i64,
        None => 0,
    }
}

/// The age of something stamped `timestamp` (seconds since the Unix epoch),
/// seen at the time `now`.
pub fn format_age(timestamp: i64, now: SystemTime) -> (r: String)
    ensures
        r@ == age_text(age_seconds(timestamp, now_seconds_of(now)) as nat),
{
    let now_seconds: i64 = match seconds_since_epoch(now) {
        Some(seconds) => seconds as i64,
        None => 0,
    };
    format_age_at(timestamp, now_seconds)
}

/// No session comes strictly before itself.
pub proof fn lemma_precedes_irreflexive(a: Session)
    ensures
        !precedes(a, a),
{
    crate::text::lemma_text_lt_irreflexive(a.id@);
}

/// Recency order is transitive.
pub proof fn lemma_precedes_transitive(a: Session, b: Session, c: Session)
    requires
        precedes(a, b),
        precedes(b, c),
    ensures
        precedes(a, c),
{
    if a.recency_at == b.recency_at && b.recency_at == c.recency_at && a.updated_at == b.updated_at
        && b.updated_at == c.updated_at {
        crate::text::lemma_text_lt_transitive(a.id@, b.id@, c.id@);
    }
}

/// No later session comes strictly before an earlier one.
pub open spec fn in_recency_order(s: Seq<Session>) -> bool {
    forall|i: int, j: int| 0 <= i < j < s.len() ==> !precedes(#[trigger] s[j], #[trigger] s[i])
}

/// No two sessions share an identifier.
pub open spec fn distinct_ids(s: Seq<Session>) -> bool {
    forall|i: int, j: int| 0 <= i < s.len() && 0 <= j < s.len() && i != j ==> #[trigger] s[i].id@ != #[trigger] s[j].id@
}

/// Placing a session keeps every session and adds the one placed.
pub proof fn lemma_insert_permutes(s: Seq<Session>, x: Session)
    ensures
        insert_by_recency(s, x).to_multiset() == s.to_multiset().insert(x),
    decreases s.len(),
{
    broadcast use vstd::multiset::group_multiset_axioms;

    if s.len() == 0 {
        assert(seq![x] =~= s.insert(0, x));
        vstd::seq_lib::to_multiset_insert(s, 0, x);
    } else if precedes(x, s[0]) {
        assert(seq![x] + s =~= s.insert(0, x));
        vstd::seq_lib::to_multiset_insert(s, 0, x);
    } else {
        let rest = s.drop_first();
        lemma_insert_permutes(rest, x);
        let tail = insert_by_recency(rest, x);
        assert(s =~= rest.insert(0, s[0]));
        vstd::seq_lib::to_multiset_insert(rest, 0, s[0]);
        assert(seq![s[0]] + tail =~= tail.insert(0, s[0]));
        vstd::seq_lib::to_multiset_insert(tail, 0, s[0]);
        assert(tail.insert(0, s[0]).to_multiset() =~= s.to_multiset().insert(x));
    }
}

/// Sorting by recency keeps exactly the sessions it was given.
pub proof fn lemma_sorted_by_recency_permutes(s: Seq<Session>)
    ensures
        sorted_by_recency(s).to_multiset() == s.to_multiset(),
    decreases s.len(),
{
    broadcast use vstd::multiset::group_multiset_axioms;

    if s.len() > 0 {
        lemma_sorted_by_recency_permutes(s.drop_last());
        lemma_insert_permutes(sorted_by_recency(s.drop_last()), s.last());
        assert(s =~= s.drop_last().push(s.last()));
        vstd::seq_lib::to_multiset_build(s.drop_last(), s.last());
    }
}

/// A session is among the sorted sessions exactly where it was among the
/// sessions given.
pub proof fn lemma_sorted_by_recency_contains(s: Seq<Session>, e: Session)
    ensures
        sorted_by_recency(s).contains(e) <==> s.contains(e),
{
    lemma_sorted_by_recency_permutes(s);
    vstd::seq_lib::to_multiset_contains(s, e);
    vstd::seq_lib::to_multiset_contains(sorted_by_recency(s), e);
}

proof fn lemma_insert_contains(s: Seq<Session>, x: Session, e: Session)
    ensures
        insert_by_recency(s, x).contains(e) <==> (s.contains(e) || e == x),
{
    broadcast use vstd::multiset::group_multiset_axioms;

    lemma_insert_permutes(s, x);
    vstd::seq_lib::to_multiset_contains(s, e);
    vstd::seq_lib::to_multiset_contains(insert_by_recency(s, x), e);
}

proof fn lemma_insert_in_order(s: Seq<Session>, x: Session)
    requires
        in_recency_order(s),
    ensures
        in_recency_order(insert_by_recency(s, x)),
    decreases s.len(),
{
    if s.len() == 0 {
    } else if precedes(x, s[0]) {
        let r = seq![x] + s;
        assert forall|i: int, j: int| 0 <= i < j < r.len() implies !precedes(#[trigger] r[j], #[trigger] r[i]) by {
            if i == 0 {
                assert(r[j] == s[j - 1]);
                if precedes(s[j - 1], x) {
                    lemma_precedes_transitive(s[j - 1], x, s[0]);
                    if j - 1 == 0 {
                        lemma_precedes_irreflexive(s[0]);
                    }
                }
            } else {
                assert(r[i] == s[i - 1] && r[j] == s[j - 1]);
            }
        }
    } else {
        let rest = s.drop_first();
        assert(in_recency_order(rest)) by {
            assert forall|i: int, j: int| 0 <= i < j < rest.len() implies !precedes(#[trigger] rest[j], #[trigger] rest[i]) by {
                assert(rest[i] == s[i + 1] && rest[j] == s[j + 1]);
            }
        }
        lemma_insert_in_order(rest, x);
        let tail = insert_by_recency(rest, x);
        let r = seq![s[0]] + tail;
        assert forall|i: int, j: int| 0 <= i < j < r.len() implies !precedes(#[trigger] r[j], #[trigger] r[i]) by {
            if i == 0 {
                assert(r[j] == tail[j - 1]);
                assert(tail.contains(tail[j - 1]));
                lemma_insert_contains(rest, x, tail[j - 1]);
                if rest.contains(tail[j - 1]) {
                    let k = choose|k: int| 0 <= k < rest.len() && rest[k] == tail[j - 1];
                    assert(s[k + 1] == rest[k]);
                }
            } else {
                assert(r[i] == tail[i - 1] && r[j] == tail[j - 1]);
            }
        }
    }
}

/// Sorting by recency yields sessions in recency order.
pub proof fn lemma_sorted_by_recency_in_order(s: Seq<Session>)
    ensures
        in_recency_order(sorted_by_recency(s)),
    decreases s.len(),
{
    if s.len() > 0 {
        lemma_sorted_by_recency_in_order(s.drop_last());
        lemma_insert_in_order(sorted_by_recency(s.drop_last()), s.last());
    }
}

proof fn lemma_insert_distinct(s: Seq<Session>, x: Session)
    requires
        distinct_ids(s),
        forall|i: int| 0 <= i < s.len() ==> #[trigger] s[i].id@ != x.id@,
    ensures
        distinct_ids(insert_by_recency(s, x)),
    decreases s.len(),
{
    if s.len() == 0 {
    } else if precedes(x, s[0]) {
        let r = seq![x] + s;
        assert forall|i: int, j: int| 0 <= i < r.len() && 0 <= j < r.len() && i != j implies #[trigger] r[i].id@ != #[trigger] r[j].id@ by {
            if i > 0 {
                assert(r[i] == s[i - 1]);
            }
            if j > 0 {
                assert(r[j] == s[j - 1]);
            }
        }
    } else {
        let rest = s.drop_first();
        assert forall|i: int| 0 <= i < rest.len() implies #[trigger] rest[i].id@ != x.id@ by {
            assert(rest[i] == s[i + 1]);
        }
        assert(distinct_ids(rest)) by {
            assert forall|i: int, j: int| 0 <= i < rest.len() && 0 <= j < rest.len() && i != j implies #[trigger] rest[i].id@ != #[trigger] rest[j].id@ by {
                assert(rest[i] == s[i + 1] && rest[j] == s[j + 1]);
            }
        }
        lemma_insert_distinct(rest, x);
        let tail = insert_by_recency(rest, x);
        let r = seq![s[0]] + tail;
        assert forall|i: int, j: int| 0 <= i < r.len() && 0 <= j < r.len() && i != j implies #[trigger] r[i].id@ != #[trigger] r[j].id@ by {
            if i == 0 || j == 0 {
                let k = if i == 0 { j } else { i };
                assert(r[k] == tail[k - 1]);
                assert(tail.contains(tail[k - 1]));
                lemma_insert_contains(rest, x, tail[k - 1]);
                if rest.contains(tail[k - 1]) {
                    let m = choose|m: int| 0 <= m < rest.len() && rest[m] == tail[k - 1];
                    assert(s[m + 1] == rest[m]);
                }
            } else {
                assert(r[i] == tail[i - 1] && r[j] == tail[j - 1]);
            }
        }
    }
}

/// Sorting by recency keeps identifiers distinct.
pub proof fn lemma_sorted_by_recency_distinct(s: Seq<Session>)
    requires
        distinct_ids(s),
    ensures
        distinct_ids(sorted_by_recency(s)),
    decreases s.len(),
{
    if s.len() > 0 {
        let init = s.drop_last();
        assert(distinct_ids(init)) by {
            assert forall|i: int, j: int| 0 <= i < init.len() && 0 <= j < init.len() && i != j implies #[trigger] init[i].id@ != #[trigger] init[j].id@ by {
                assert(init[i] == s[i] && init[j] == s[j]);
            }
        }
        lemma_sorted_by_recency_distinct(init);
        let sorted = sorted_by_recency(init);
        assert forall|i: int| 0 <= i < sorted.len() implies #[trigger] sorted[i].id@ != s.last().id@ by {
            assert(sorted.contains(sorted[i]));
            lemma_sorted_by_recency_contains(init, sorted[i]);
            let k = choose|k: int| 0 <= k < init.len() && init[k] == sorted[i];
            assert(s[k] == init[k]);
            assert(s.last() == s[s.len() - 1]);
        }
        lemma_insert_distinct(sorted, s.last());
    }
}

} // verus!
