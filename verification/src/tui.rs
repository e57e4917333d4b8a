//! The decisions of the terminal front end: how keys map to actions, what
//! the status and footer lines say, how a session row is laid out within a
//! width of terminal cells, and when pagination stops.

use crate::app::{
    navigation_target, restore_id_on_begin, select_first_visible, selected_visible_position,
    distinct_projects, selection_after_cancel, visible, App, AppModel, LoadStateView, Navigation,
    Screen,
};
use crate::domain::{age_seconds, age_text, format_age, project_label_at, project_label_in, Session};
use crate::text::{decimal, pop_char, push_char, push_decimal};
use std::time::SystemTime;
use vstd::prelude::*;

verus! {

/// The display width of a character in terminal cells, as
/// `UnicodeWidthChar::width` gives it (none for control characters).
pub uninterp spec fn char_width(c: char) -> Option<usize>;

/// The display width of text in terminal cells, as `UnicodeWidthStr::width`
/// gives it.
pub uninterp spec fn text_width(s: Seq<char>) -> usize;

/// The display width of `c`, by `unicode_width::UnicodeWidthChar::width`.
#[verifier::external_body]
fn char_display_width(c: char) -> (r: Option<usize>)
    ensures
        r == char_width(c),
{
    unicode_width::UnicodeWidthChar::width(c)
}

/// The display width of `value`, by `unicode_width::UnicodeWidthStr::width`:
/// a sum over the text's parts, so empty text is zero cells wide.
#[verifier::external_body]
fn display_width(value: &str) -> (r: usize)
    ensures
        r == text_width(value@),
        value@.len() == 0 ==> r == 0,
{
    unicode_width::UnicodeWidthStr::width(value)
}

/// The width that truncation counts for a character: zero for one without
/// a width.
pub open spec fn counted_width(c: char) -> nat {
    match char_width(c) {
        Some(w) => w as nat,
        None => 0,
    }
}

/// The characters that truncation keeps from `s` within `budget` cells,
/// given `kept` so far using `used` cells: zero-width characters are
/// dropped before the first kept character, and keeping stops at the first
/// character that does not fit.
pub open spec fn keep_within(s: Seq<char>, kept: Seq<char>, used: nat, budget: nat) -> Seq<char>
    decreases s.len(),
{
    if s.len() == 0 {
        kept
    } else {
        let w = counted_width(s[0]);
        if w == 0 && kept.len() == 0 {
            keep_within(s.drop_first(), kept, used, budget)
        } else if used + w > budget {
            kept
        } else {
            keep_within(s.drop_first(), kept.push(s[0]), used + w, budget)
        }
    }
}

/// The longest of `kept` and its shorter prefixes that, followed by an
/// ellipsis, fits in `width` cells as a whole; nothing where not even the
/// ellipsis alone fits.
pub open spec fn fitted(kept: Seq<char>, width: nat) -> Seq<char>
    decreases kept.len(),
{
    if text_width(kept.push('…')) <= width {
        kept.push('…')
    } else if kept.len() == 0 {
        Seq::empty()
    } else {
        fitted(kept.drop_last(), width)
    }
}

/// `value` cut to `width` cells: unchanged where it fits, nothing for no
/// cells, and otherwise the characters that fit in one cell less, followed
/// by an ellipsis, shortened further until the whole fits.
pub open spec fn truncated(value: Seq<char>, width: nat) -> Seq<char> {
    if text_width(value) <= width {
        value
    } else if width == 0 {
        Seq::empty()
    } else {
        fitted(keep_within(value, Seq::empty(), 0, (width - 1) as nat), width)
    }
}

proof fn lemma_fitted_shape(kept: Seq<char>, width: nat)
    ensures
        fitted(kept, width).len() == 0 || fitted(kept, width).last() == '…',
    decreases kept.len(),
{
    if text_width(kept.push('…')) > width && kept.len() > 0 {
        lemma_fitted_shape(kept.drop_last(), width);
    }
}

/// Truncation returns text that fits unchanged, and cuts text that does
/// not fit to nothing or to something that ends in an ellipsis.
pub proof fn lemma_truncation_shape(value: Seq<char>, width: nat)
    ensures
        text_width(value) <= width ==> truncated(value, width) == value,
        text_width(value) > width ==> truncated(value, width).len() == 0 || truncated(
            value,
            width,
        ).last() == '…',
{
    if width > 0 {
        lemma_fitted_shape(keep_within(value, Seq::empty(), 0, (width - 1) as nat), width);
    }
}

/// Cuts `value` to `width` display cells, ending in an ellipsis where
/// anything was cut.
pub fn truncate(value: &str, width: usize) -> (r: String)
    ensures
        r@ == truncated(value@, width as nat),
        text_width(r@) <= width,
{
    if display_width(value) <= width {
        return String::from_str(value);
    }
    if width == 0 {
        return empty_text();
    }
    let content_width = width - 1;
    let characters = crate::text::chars_of(value);
    let mut result = String::new();
    let mut used_width: usize = 0;
    let mut i: usize = 0;
    assert(characters@.skip(0) =~= characters@);
    while i < characters.len()
        invariant_except_break
            i <= characters@.len(),
            keep_within(value@, Seq::empty(), 0, content_width as nat) == keep_within(
                characters@.skip(i as int),
                result@,
                used_width as nat,
                content_width as nat,
            ),
            i == characters@.len() ==> characters@.skip(i as int) =~= Seq::<char>::empty(),
        invariant
            characters@ == value@,
            used_width <= content_width,
        ensures
            keep_within(value@, Seq::empty(), 0, content_width as nat) == result@,
        decreases characters@.len() - i,
    {
        let character = characters[i];
        assert(characters@.skip(i as int).drop_first() =~= characters@.skip(i + 1));
        assert(characters@.skip(i as int)[0] == character);
        let character_width: usize = match char_display_width(character) {
            Some(w) => w,
            None => 0,
        };
        if character_width == 0 && result.as_str().is_empty() {
            i = i + 1;
            assert(i == characters@.len() ==> characters@.skip(i as int) =~= Seq::<char>::empty());
            continue;
        }
        if character_width > content_width - used_width {
            break;
        }
        push_char(&mut result, character);
        used_width = used_width + character_width;
        i = i + 1;
        assert(i == characters@.len() ==> characters@.skip(i as int) =~= Seq::<char>::empty());
    }
    loop
        invariant
            text_width(value@) > width,
            width > 0,
            content_width == width - 1,
            fitted(keep_within(value@, Seq::empty(), 0, content_width as nat), width as nat)
                == fitted(result@, width as nat),
        decreases result@.len(),
    {
        let mut candidate = String::from_str(result.as_str());
        push_char(&mut candidate, '…');
        if display_width(candidate.as_str()) <= width {
            return candidate;
        }
        if result.as_str().is_empty() {
            return empty_text();
        }
        let _ = pop_char(&mut result);
    }
}

/// Text with nothing in it, which takes no cells.
fn empty_text() -> (r: String)
    ensures
        r@ == Seq::<char>::empty(),
        text_width(r@) == 0,
{
    let r = String::new();
    let _ = display_width(r.as_str());
    r
}

/// `n` spaces.
pub open spec fn spaces(n: nat) -> Seq<char> {
    Seq::new(n, |i: int| ' ')
}

/// `value` preceded by spaces up to `width` cells.
pub open spec fn left_padded(value: Seq<char>, width: nat) -> Seq<char> {
    let pad: nat = if text_width(value) >= width {
        0
    } else {
        (width - text_width(value)) as nat
    };
    spaces(pad) + value
}

/// Pads `value` on the left with spaces up to `width` display cells.
pub fn left_pad(value: &str, width: usize) -> (r: String)
    ensures
        r@ == left_padded(value@, width as nat),
{
    let value_width = display_width(value);
    let pad: usize = if value_width >= width {
        0
    } else {
        width - value_width
    };
    let mut result = String::new();
    let mut i: usize = 0;
    while i < pad
        invariant
            i <= pad,
            result@ == spaces(i as nat),
        decreases pad - i,
    {
        push_char(&mut result, ' ');
        i = i + 1;
        assert(result@ =~= spaces(i as nat));
    }
    let mut out = result;
    out.append(value);
    out
}

/// `a - b`, and zero where that is negative.
pub open spec fn saturating_difference(a: int, b: int) -> nat {
    if a > b {
        (a - b) as nat
    } else {
        0
    }
}

/// The age column of a row: the age cut and right-aligned to four cells,
/// then two spaces.
pub open spec fn age_column(age: Seq<char>) -> Seq<char> {
    left_padded(truncated(age, 4), 4) + "  "@
}

/// The branch part of a row: shown only in rows of at least 70 cells and
/// for a non-empty branch, cut to 20 cells, in brackets.
pub open spec fn branch_column(session: Session, width: nat) -> Seq<char> {
    match session.branch {
        Some(branch) => if width >= 70 && branch@.len() > 0 {
            " ["@ + truncated(branch@, 20) + "]  "@
        } else {
            Seq::empty()
        },
        None => Seq::empty(),
    }
}

/// The cells left to the project label: what remains after the age and
/// branch parts and eight cells kept for the preview, at most 24.
pub open spec fn project_budget(available_after_age: nat, branch: Seq<char>) -> nat {
    let budget = saturating_difference(
        saturating_difference(available_after_age as int, text_width(branch) as int) as int,
        8,
    );
    if budget > 24 {
        24
    } else {
        budget
    }
}

/// The project part of a row: the label ("Workspace" for the home
/// directory `home`) cut to the budget, then two spaces; nothing where the
/// budget or the label is empty.
pub open spec fn project_column(session: Session, budget: nat, home: Option<Seq<char>>) -> Seq<
    char,
> {
    let project = project_label_at(session.cwd@, home);
    if budget == 0 || project.len() == 0 {
        Seq::empty()
    } else {
        truncated(project, budget) + "  "@
    }
}

/// A session row of `width` cells, as metadata and preview: the age, the
/// project and the branch (dropped first where space is short), cut to the
/// width should they not fit it as a whole, then the preview in the cells
/// that remain.
pub open spec fn row_layout(
    session: Session,
    width: nat,
    age: Seq<char>,
    home: Option<Seq<char>>,
) -> (Seq<char>, Seq<char>) {
    let age_part = age_column(age);
    if width < text_width(age_part) {
        (truncated(age_part, width), Seq::empty())
    } else {
        let after_age = (width - text_width(age_part)) as nat;
        let branch = branch_column(session, width);
        let project = project_column(session, project_budget(after_age, branch), home);
        let metadata = truncated(age_part + project + branch, width);
        (metadata, truncated(session.preview@, saturating_difference(width as int, text_width(metadata) as int)))
    }
}

/// The text of an optional home directory.
pub open spec fn home_text(home: Option<&str>) -> Option<Seq<char>> {
    match home {
        Some(h) => Some(h@),
        None => None,
    }
}

/// Lays out a session row of `width` cells whose age reads `age`, for a
/// user whose home directory is `home`.
pub fn row_parts(session: &Session, width: usize, age: &str, home: Option<&str>) -> (r: (
    String,
    String,
))
    ensures
        (r.0@, r.1@) == row_layout(*session, width as nat, age@, home_text(home)),
        text_width(r.0@) + text_width(r.1@) <= width,
{
    let mut age_segment = left_pad(truncate(age, 4).as_str(), 4);
    age_segment.append("  ");
    let age_width = display_width(age_segment.as_str());
    if width < age_width {
        return (truncate(age_segment.as_str(), width), empty_text());
    }
    let available_after_age = width - age_width;
    let branch_segment = match &session.branch {
        Some(branch) => if width >= 70 && !branch.as_str().is_empty() {
            let mut segment = String::from_str(" [");
            segment.append(truncate(branch.as_str(), 20).as_str());
            segment.append("]  ");
            segment
        } else {
            String::new()
        },
        None => String::new(),
    };
    assert(branch_segment@ == branch_column(*session, width as nat));
    let branch_width = display_width(branch_segment.as_str());
    let after_branch: usize = if available_after_age > branch_width {
        available_after_age - branch_width
    } else {
        0
    };
    let budget: usize = if after_branch > 8 {
        after_branch - 8
    } else {
        0
    };
    let budget: usize = if budget > 24 {
        24
    } else {
        budget
    };
    assert(budget == project_budget(available_after_age as nat, branch_segment@));
    let project = project_label_in(session.cwd.as_str(), home);
    let ghost age_part = age_segment@;
    let mut metadata = age_segment;
    if budget != 0 && !project.as_str().is_empty() {
        metadata.append(truncate(project.as_str(), budget).as_str());
        metadata.append("  ");
    }
    assert(metadata@ == age_part + project_column(*session, budget as nat, home_text(home)));
    metadata.append(branch_segment.as_str());
    let metadata = truncate(metadata.as_str(), width);
    let metadata_width = display_width(metadata.as_str());
    let available: usize = if width > metadata_width {
        width - metadata_width
    } else {
        0
    };
    let preview = truncate(session.preview.as_str(), available);
    (metadata, preview)
}

/// The present time (`SystemTime::now`).
#[verifier::external_body]
fn current_time() -> SystemTime {
    SystemTime::now()
}

/// Lays out a session row of `width` cells, its age taken at the present
/// time, for a user whose home directory is `home`.
pub fn session_row(session: &Session, width: usize, home: Option<&str>) -> (r: (String, String))
    ensures
        exists|now_seconds: i64|
            (r.0@, r.1@) == row_layout(
                *session,
                width as nat,
                age_text(age_seconds(session.recency_at, now_seconds) as nat),
                home_text(home),
            ),
        text_width(r.0@) + text_width(r.1@) <= width,
{
    let age = format_age(session.recency_at, current_time());
    row_parts(session, width, age.as_str(), home)
}

/// Lays out a session row of `width` cells, its age taken at the present
/// time, where no home directory is known.
pub fn session_parts(session: &Session, width: usize) -> (r: (String, String))
    ensures
        exists|now_seconds: i64|
            (r.0@, r.1@) == row_layout(
                *session,
                width as nat,
                age_text(age_seconds(session.recency_at, now_seconds) as nat),
                None,
            ),
        text_width(r.0@) + text_width(r.1@) <= width,
{
    session_row(session, width, None)
}

/// A key as the terminal reports it: which key, and whether Control was
/// held.
#[derive(Clone, Copy, Debug, Eq, PartialEq, Structural)]
pub enum KeyCode {
    Char(char),
    Esc,
    Up,
    Down,
    Home,
    End,
    Enter,
    Backspace,
    Other,
}

/// A key press.
#[derive(Clone, Copy, Debug, Eq, PartialEq, Structural)]
pub struct KeyInput {
    pub code: KeyCode,
    pub control: bool,
}

/// The key press ends the browser from its session list: `q`, `Esc`, or
/// `Ctrl-C`.
pub open spec fn quits(key: KeyInput) -> bool {
    ||| key.code == KeyCode::Char('q')
    ||| key.code == KeyCode::Esc
    ||| key.code == KeyCode::Char('c') && key.control
}

/// Whether the key press ends the browser from its session list.
pub fn should_quit(key: KeyInput) -> (r: bool)
    ensures
        r == quits(key),
{
    match key.code {
        KeyCode::Char(c) => c == 'q' || (c == 'c' && key.control),
        KeyCode::Esc => true,
        _ => false,
    }
}

/// What a key press asks of the browser.
#[derive(Clone, Copy, Debug, Eq, PartialEq, Structural)]
pub enum KeyAction {
    Quit,
    Move(Navigation),
    BeginSearch,
    Type(char),
    Erase,
    CancelSearch,
    OpenDetails,
    CloseDetails,
    Ignore,
}

/// The move that a navigation key asks for: `Up`, `Down`, `Home`, `End`,
/// and, where `letters` holds, `k` and `j`.
pub open spec fn navigation_of(code: KeyCode, letters: bool) -> Option<Navigation> {
    match code {
        KeyCode::Up => Some(Navigation::Up),
        KeyCode::Down => Some(Navigation::Down),
        KeyCode::Home => Some(Navigation::Home),
        KeyCode::End => Some(Navigation::End),
        KeyCode::Char(c) => if letters && c == 'k' {
            Some(Navigation::Up)
        } else if letters && c == 'j' {
            Some(Navigation::Down)
        } else {
            None
        },
        _ => None,
    }
}

/// What a key press asks for, given the screen and whether a search is
/// being typed. `Ctrl-C` quits from every screen. While a search is typed,
/// on either screen, every printable key (`j`, `k` and `q` too) is query
/// text, `Backspace` erases, arrows move, `Enter` opens the details, and
/// `Esc` leaves the details or, on the session list, clears the search.
/// Outside a search, on the details screen `Esc` returns to the sessions and
/// `q` quits; on the session list `q` and `Esc` quit, `/` starts a search,
/// `Enter` opens the details, and `Up`/`k`, `Down`/`j`, `Home` and `End`
/// move.
pub open spec fn key_decision(view: Screen, searching: bool, key: KeyInput) -> KeyAction {
    if key.code == KeyCode::Char('c') && key.control {
        KeyAction::Quit
    } else if searching {
        match key.code {
            KeyCode::Esc => if view == Screen::Details {
                KeyAction::CloseDetails
            } else {
                KeyAction::CancelSearch
            },
            KeyCode::Enter => KeyAction::OpenDetails,
            KeyCode::Backspace => KeyAction::Erase,
            KeyCode::Char(c) => if key.control {
                KeyAction::Ignore
            } else {
                KeyAction::Type(c)
            },
            _ => match navigation_of(key.code, false) {
                Some(navigation) => KeyAction::Move(navigation),
                None => KeyAction::Ignore,
            },
        }
    } else if view == Screen::Details {
        if key.code == KeyCode::Esc {
            KeyAction::CloseDetails
        } else if key.code == KeyCode::Char('q') {
            KeyAction::Quit
        } else {
            KeyAction::Ignore
        }
    } else if quits(key) {
        KeyAction::Quit
    } else if key.code == KeyCode::Char('/') {
        KeyAction::BeginSearch
    } else if key.code == KeyCode::Enter {
        KeyAction::OpenDetails
    } else {
        match navigation_of(key.code, true) {
            Some(navigation) => KeyAction::Move(navigation),
            None => KeyAction::Ignore,
        }
    }
}

/// The move that a navigation key asks for.
fn navigation_key(code: KeyCode, letters: bool) -> (r: Option<Navigation>)
    ensures
        r == navigation_of(code, letters),
{
    match code {
        KeyCode::Up => Some(Navigation::Up),
        KeyCode::Down => Some(Navigation::Down),
        KeyCode::Home => Some(Navigation::Home),
        KeyCode::End => Some(Navigation::End),
        KeyCode::Char(c) => if letters && c == 'k' {
            Some(Navigation::Up)
        } else if letters && c == 'j' {
            Some(Navigation::Down)
        } else {
            None
        },
        _ => None,
    }
}

/// What a key press asks of the browser in its present state.
pub fn key_action(app: &App, key: KeyInput) -> (r: KeyAction)
    ensures
        r == key_decision(app.model().view, app.model().searching, key),
{
    let searching = app.is_searching();
    let details = app.view() == Screen::Details;
    if key.code == KeyCode::Char('c') && key.control {
        return KeyAction::Quit;
    }
    if searching {
        return match key.code {
            KeyCode::Esc => if details {
                KeyAction::CloseDetails
            } else {
                KeyAction::CancelSearch
            },
            KeyCode::Enter => KeyAction::OpenDetails,
            KeyCode::Backspace => KeyAction::Erase,
            KeyCode::Char(c) => if key.control {
                KeyAction::Ignore
            } else {
                KeyAction::Type(c)
            },
            _ => match navigation_key(key.code, false) {
                Some(navigation) => KeyAction::Move(navigation),
                None => KeyAction::Ignore,
            },
        };
    }
    if details {
        return if key.code == KeyCode::Esc {
            KeyAction::CloseDetails
        } else if key.code == KeyCode::Char('q') {
            KeyAction::Quit
        } else {
            KeyAction::Ignore
        };
    }
    if should_quit(key) {
        KeyAction::Quit
    } else if key.code == KeyCode::Char('/') {
        KeyAction::BeginSearch
    } else if key.code == KeyCode::Enter {
        KeyAction::OpenDetails
    } else {
        match navigation_key(key.code, true) {
            Some(navigation) => KeyAction::Move(navigation),
            None => KeyAction::Ignore,
        }
    }
}

/// The state after a search text changes to `search`: the selection kept
/// where visible, else moved to the first visible row.
pub open spec fn after_search_edit(m: AppModel, search: Seq<char>) -> AppModel {
    let typed = AppModel { search, ..m };
    AppModel { selected: select_first_visible(typed), ..typed }
}

/// The state after the browser carries out `action`.
pub open spec fn after_action(m: AppModel, action: KeyAction) -> AppModel {
    match action {
        KeyAction::Move(navigation) => if visible(m).len() == 0 {
            m
        } else {
            AppModel { selected: Some(visible(m)[navigation_target(m, navigation)]), ..m }
        },
        KeyAction::BeginSearch => AppModel {
            searching: true,
            search_restore_id: restore_id_on_begin(m),
            ..m
        },
        KeyAction::Type(c) => if m.searching {
            after_search_edit(m, m.search.push(c))
        } else {
            m
        },
        KeyAction::Erase => if m.searching {
            after_search_edit(
                m,
                if m.search.len() > 0 {
                    m.search.drop_last()
                } else {
                    m.search
                },
            )
        } else {
            m
        },
        KeyAction::CancelSearch => AppModel {
            search: Seq::empty(),
            searching: false,
            search_restore_id: None,
            selected: selection_after_cancel(m),
            ..m
        },
        KeyAction::OpenDetails => AppModel {
            view: if selected_visible_position(m) is Some {
                Screen::Details
            } else {
                m.view
            },
            ..m
        },
        KeyAction::CloseDetails => AppModel { view: Screen::Sessions, ..m },
        KeyAction::Quit => m,
        KeyAction::Ignore => m,
    }
}

/// Carries out a key press on the browser; true where it asks to quit.
pub fn handle_key(app: &mut App, key: KeyInput) -> (quit: bool)
    requires
        old(app).wf(),
    ensures
        final(app).wf(),
        quit == (key_decision(old(app).model().view, old(app).model().searching, key)
            == KeyAction::Quit),
        final(app).model() == after_action(
            old(app).model(),
            key_decision(old(app).model().view, old(app).model().searching, key),
        ),
{
    match key_action(app, key) {
        KeyAction::Quit => true,
        KeyAction::Move(navigation) => {
            app.navigate(navigation);
            false
        },
        KeyAction::BeginSearch => {
            app.begin_search();
            false
        },
        KeyAction::Type(c) => {
            app.push_search(c);
            false
        },
        KeyAction::Erase => {
            app.pop_search();
            false
        },
        KeyAction::CancelSearch => {
            app.cancel_search();
            false
        },
        KeyAction::OpenDetails => {
            app.open_selected();
            false
        },
        KeyAction::CloseDetails => {
            app.close_details();
            false
        },
        KeyAction::Ignore => false,
    }
}

/// The status line: where loading stands; once sessions are ready, how
/// many are loaded, how many match the search, and how many projects they
/// span, and whether results are partial or more are loading.
pub open spec fn status_line(
    state: LoadStateView,
    count: nat,
    matching: nat,
    projects: nat,
    partial: bool,
    more: bool,
) -> Seq<char> {
    match state {
        LoadStateView::Loading => "loading sessions"@,
        LoadStateView::Ready => {
            let counts = decimal(count) + " sessions · "@ + decimal(matching) + " matching · "@
                + decimal(projects) + " projects"@;
            if partial {
                counts + " · partial"@
            } else if more {
                counts + " · loading more"@
            } else {
                counts
            }
        },
        LoadStateView::Empty => "no interactive sessions found"@,
        LoadStateView::Failed(_) => "integration error"@,
    }
}

/// The status line for the browser's state.
pub fn status_text(app: &App) -> (r: String)
    ensures
        r@ == status_line(
            app.model().state,
            app.model().sessions.len(),
            visible(app.model()).len(),
            distinct_projects(app.model().sessions),
            app.model().warning is Some,
            app.model().loading_more,
        ),
{
    match app.state() {
        crate::app::LoadState::Loading => String::from_str("loading sessions"),
        crate::app::LoadState::Ready => {
            let count = app.sessions().len();
            let matching = app.filtered_indices().len();
            let projects = app.project_count();
            let mut line = String::new();
            push_decimal(&mut line, count as u64);
            line.append(" sessions · ");
            push_decimal(&mut line, matching as u64);
            line.append(" matching · ");
            push_decimal(&mut line, projects as u64);
            line.append(" projects");
            if app.warning().is_some() {
                line.append(" · partial");
            } else if app.loading_more() {
                line.append(" · loading more");
            }
            line
        },
        crate::app::LoadState::Empty => String::from_str("no interactive sessions found"),
        crate::app::LoadState::Failed(_) => String::from_str("integration error"),
    }
}

/// The key help for the screen shown and whether a search is being typed.
pub open spec fn key_help(view: Screen, searching: bool) -> Seq<char> {
    if searching {
        if view == Screen::Details {
            "type to search  Backspace erase  ↑/↓ navigate  Esc back  Ctrl-C quit"@
        } else {
            "type to search  Backspace erase  ↑/↓ navigate  Enter details  Esc clear  Ctrl-C quit"@
        }
    } else if view == Screen::Details {
        "Esc back  q/Ctrl-C quit"@
    } else {
        "↑/k ↓/j navigate  Home/End jump  / search  Enter details  q/Esc/Ctrl-C quit"@
    }
}

/// The footer: the partial-results warning above the key help, or the key
/// help alone.
pub open spec fn footer_lines(warning: Option<Seq<char>>, keys: Seq<char>) -> Seq<char> {
    match warning {
        Some(w) => "Partial results: "@ + w + "\n"@ + keys,
        None => keys,
    }
}

/// The key help for the browser's state.
fn key_help_text(app: &App) -> (r: &'static str)
    ensures
        r@ == key_help(app.model().view, app.model().searching),
{
    if app.is_searching() {
        if app.view() == Screen::Details {
            "type to search  Backspace erase  ↑/↓ navigate  Esc back  Ctrl-C quit"
        } else {
            "type to search  Backspace erase  ↑/↓ navigate  Enter details  Esc clear  Ctrl-C quit"
        }
    } else if app.view() == Screen::Details {
        "Esc back  q/Ctrl-C quit"
    } else {
        "↑/k ↓/j navigate  Home/End jump  / search  Enter details  q/Esc/Ctrl-C quit"
    }
}

/// The footer for the browser's state.
pub fn footer_text(app: &App) -> (r: String)
    ensures
        r@ == footer_lines(app.model().warning, key_help(app.model().view, app.model().searching)),
{
    let keys = key_help_text(app);
    match app.warning() {
        Some(warning) => {
            let mut footer = String::from_str("Partial results: ");
            footer.append(warning);
            footer.append("\n");
            footer.append(keys);
            footer
        },
        None => String::from_str(keys),
    }
}

/// What the loader does after a page: stop because the list is complete,
/// stop because the server repeated a cursor, or fetch the page after the
/// given cursor.
#[derive(Debug, Eq, PartialEq)]
pub enum PageStep {
    Complete,
    RepeatedCursor,
    Fetch(String),
}

/// What follows a page, as a value: the end of the list, a cursor handed
/// out before, or fetching after a new cursor.
pub enum PageOutcome {
    Complete,
    Repeated,
    Fetch(Seq<char>),
}

/// What follows a page whose next cursor is `next`, when the cursors `log`
/// were handed out before it.
pub open spec fn page_outcome(log: Seq<Seq<char>>, next: Option<Seq<char>>) -> PageOutcome {
    match next {
        None => PageOutcome::Complete,
        Some(cursor) => if log.contains(cursor) {
            PageOutcome::Repeated
        } else {
            PageOutcome::Fetch(cursor)
        },
    }
}

/// The cursors handed out after a page whose next cursor is `next`.
pub open spec fn cursors_after(log: Seq<Seq<char>>, next: Option<Seq<char>>) -> Seq<Seq<char>> {
    match page_outcome(log, next) {
        PageOutcome::Fetch(cursor) => log.push(cursor),
        _ => log,
    }
}

/// A loader step as a value.
pub open spec fn step_outcome(step: PageStep) -> PageOutcome {
    match step {
        PageStep::Complete => PageOutcome::Complete,
        PageStep::RepeatedCursor => PageOutcome::Repeated,
        PageStep::Fetch(cursor) => PageOutcome::Fetch(cursor@),
    }
}

/// The message the loader stops with on a repeated cursor.
pub open spec fn repeated_cursor_message() -> Seq<char> {
    "app-server returned a repeated pagination cursor"@
}

/// The message the loader stops with when the server hands out a cursor a
/// second time.
pub fn repeated_cursor_error() -> (r: String)
    ensures
        r@ == repeated_cursor_message(),
{
    String::from_str("app-server returned a repeated pagination cursor")
}

/// What the background loader does, one event at a time: it requests a
/// page after a cursor, reports a page, or stops once, complete or failed.
pub enum LoaderEvent {
    Request(Option<Seq<char>>),
    Page,
    Complete,
    Failed(Seq<char>),
}

/// The events of the loader from a request after `cursor`, having handed
/// out the cursors `log`, where `replies` are the replies to this request
/// and the ones after it: a page with its next cursor, or an error message.
/// Where the replies run out, the last request is still waiting.
pub open spec fn loader_events(
    replies: Seq<Result<Option<Seq<char>>, Seq<char>>>,
    log: Seq<Seq<char>>,
    cursor: Option<Seq<char>>,
) -> Seq<LoaderEvent>
    decreases replies.len(),
{
    let request = seq![LoaderEvent::Request(cursor)];
    if replies.len() == 0 {
        request
    } else {
        match replies[0] {
            Err(message) => request.push(LoaderEvent::Failed(message)),
            Ok(next) => {
                let paged = request.push(LoaderEvent::Page);
                match page_outcome(log, next) {
                    PageOutcome::Complete => paged.push(LoaderEvent::Complete),
                    PageOutcome::Repeated => paged.push(
                        LoaderEvent::Failed(repeated_cursor_message()),
                    ),
                    PageOutcome::Fetch(after) => paged + loader_events(
                        replies.drop_first(),
                        log.push(after),
                        Some(after),
                    ),
                }
            },
        }
    }
}

/// The events of a whole run of the loader, whose page requests get the
/// replies `replies` in turn.
pub open spec fn loader_run(replies: Seq<Result<Option<Seq<char>>, Seq<char>>>) -> Seq<
    LoaderEvent,
> {
    loader_events(replies, Seq::empty(), None)
}

/// The shape of a run from any point, with the cursor of the request it
/// starts from already logged.
proof fn lemma_loader_events(
    replies: Seq<Result<Option<Seq<char>>, Seq<char>>>,
    log: Seq<Seq<char>>,
    cursor: Option<Seq<char>>,
)
    requires
        cursor matches Some(c) ==> log.contains(c),
    ensures
        ({
            let events = loader_events(replies, log, cursor);
            &&& events.len() >= 1
            &&& events[0] == LoaderEvent::Request(cursor)
            &&& forall|i: int|
                0 <= i < events.len() - 1 ==> (i % 2 == 0 ==> #[trigger] events[i] is Request) && (i
                    % 2 == 1 ==> events[i] is Page)
            &&& events.len() <= 2 * replies.len() + 1
            &&& events.last() is Request ==> events.len() == 2 * replies.len() + 1
            &&& forall|k: int|
                0 <= k && 2 * k + 2 < events.len() ==> (#[trigger] events[2 * k + 2] matches LoaderEvent::Request(
                    c,
                ) ==> (c is Some && replies[k] == Ok::<Option<Seq<char>>, Seq<char>>(c)))
            &&& forall|i: int|
                1 <= i < events.len() ==> (#[trigger] events[i] matches LoaderEvent::Request(c) ==> (c matches Some(
                    d,
                ) && !log.contains(d)))
            &&& forall|i: int, j: int|
                0 <= i < j < events.len() ==> (#[trigger] events[i] matches LoaderEvent::Request(
                    Some(a),
                ) ==> (#[trigger] events[j] matches LoaderEvent::Request(Some(b)) ==> a != b))
        }),
    decreases replies.len(),
{
    let events = loader_events(replies, log, cursor);
    let request = seq![LoaderEvent::Request(cursor)];
    if replies.len() == 0 {
        assert(events =~= request);
    } else {
        match replies[0] {
            Err(message) => {
                assert(events =~= seq![LoaderEvent::Request(cursor), LoaderEvent::Failed(message)]);
            },
            Ok(next) => {
                let paged = seq![LoaderEvent::Request(cursor), LoaderEvent::Page];
                assert(request.push(LoaderEvent::Page) =~= paged);
                match page_outcome(log, next) {
                    PageOutcome::Complete => {
                        assert(events =~= paged.push(LoaderEvent::Complete));
                    },
                    PageOutcome::Repeated => {
                        assert(events =~= paged.push(LoaderEvent::Failed(repeated_cursor_message())));
                    },
                    PageOutcome::Fetch(after) => {
                        let tail = replies.drop_first();
                        let logged = log.push(after);
                        assert(logged[log.len() as int] == after);
                        let rest = loader_events(tail, logged, Some(after));
                        lemma_loader_events(tail, logged, Some(after));
                        assert(events =~= paged + rest);
                        assert forall|i: int| 0 <= i < rest.len() implies events[i + 2] == rest[i] by {}
                        assert forall|k: int|
                            0 <= k && 2 * k + 2 < events.len() implies (
                            #[trigger] events[2 * k + 2] matches LoaderEvent::Request(c) ==> (c is Some
                                && replies[k] == Ok::<Option<Seq<char>>, Seq<char>>(c))) by {
                            assert(events[2 * k + 2] == rest[2 * k]);
                            if k > 0 {
                                assert(rest[2 * (k - 1) + 2] == rest[2 * k]);
                                assert(tail[k - 1] == replies[k]);
                            }
                        }
                        assert forall|i: int|
                            0 <= i < events.len() - 1 implies (i % 2 == 0
                                ==> #[trigger] events[i] is Request) && (i % 2 == 1
                                ==> events[i] is Page) by {
                            if i >= 2 {
                                assert(events[i] == rest[i - 2]);
                            }
                        }
                        assert forall|i: int| 1 <= i < events.len() implies (
                        #[trigger] events[i] matches LoaderEvent::Request(c) ==> (c matches Some(d)
                            && !log.contains(d))) by {
                            if i >= 2 {
                                assert(events[i] == rest[i - 2]);
                                if let LoaderEvent::Request(Some(d)) = rest[i - 2] {
                                    if i - 2 >= 1 {
                                        assert(!logged.contains(d));
                                        if log.contains(d) {
                                            let w = choose|w: int| 0 <= w < log.len() && log[w] == d;
                                            assert(logged[w] == d);
                                        }
                                    }
                                }
                            }
                        }
                        assert forall|i: int, j: int| 0 <= i < j < events.len() implies (
                        #[trigger] events[i] matches LoaderEvent::Request(Some(a)) ==> (
                        #[trigger] events[j] matches LoaderEvent::Request(Some(b)) ==> a != b)) by {
                            if j >= 2 {
                                assert(events[j] == rest[j - 2]);
                                if i >= 2 {
                                    assert(events[i] == rest[i - 2]);
                                } else if i == 0 {
                                    if let LoaderEvent::Request(Some(b)) = rest[j - 2] {
                                        if let Some(a) = cursor {
                                            let w = choose|w: int| 0 <= w < log.len() && log[w] == a;
                                            assert(logged[w] == a);
                                            if j - 2 >= 1 {
                                                assert(!logged.contains(b));
                                            }
                                        }
                                    }
                                }
                            }
                        }
                    },
                }
            },
        }
    }
}

/// The background loader's run, for any replies to its page requests: it
/// first asks for the first page (no cursor); requests and pages alternate,
/// and each request after the first passes the next cursor of the page
/// before it; no cursor is requested twice; nothing follows the one event
/// that stops the run (complete, a failure, or the repeated-cursor
/// failure); and a run that has not stopped is waiting for the reply to its
/// last request, every earlier reply used.
pub proof fn lemma_loader_run(replies: Seq<Result<Option<Seq<char>>, Seq<char>>>)
    ensures
        ({
            let events = loader_run(replies);
            &&& events.len() >= 1
            &&& events[0] == LoaderEvent::Request(None)
            &&& forall|i: int|
                0 <= i < events.len() - 1 ==> (i % 2 == 0 ==> #[trigger] events[i] is Request) && (i
                    % 2 == 1 ==> events[i] is Page)
            &&& events.len() <= 2 * replies.len() + 1
            &&& events.last() is Request ==> events.len() == 2 * replies.len() + 1
            &&& forall|k: int|
                0 <= k && 2 * k + 2 < events.len() ==> (#[trigger] events[2 * k + 2] matches LoaderEvent::Request(
                    c,
                ) ==> (c is Some && replies[k] == Ok::<Option<Seq<char>>, Seq<char>>(c)))
            &&& forall|i: int, j: int|
                0 <= i < j < events.len() ==> (#[trigger] events[i] matches LoaderEvent::Request(
                    Some(a),
                ) ==> (#[trigger] events[j] matches LoaderEvent::Request(Some(b)) ==> a != b))
        }),
{
    lemma_loader_events(replies, Seq::empty(), None);
}

/// The pagination cursors handed out so far.
pub struct CursorLog {
    seen: Vec<String>,
}

impl CursorLog {
    /// The cursors handed out, as text.
    pub closed spec fn cursors(&self) -> Seq<Seq<char>> {
        crate::text::texts(self.seen@)
    }

    /// A log with no cursor yet.
    pub fn new() -> (r: CursorLog)
        ensures
            r.cursors() == Seq::<Seq<char>>::empty(),
            r.cursors().no_duplicates(),
    {
        let r = CursorLog { seen: Vec::new() };
        assert(r.cursors() =~= Seq::<Seq<char>>::empty());
        r
    }

    /// Decides what follows a page whose next cursor is `next_cursor`: the
    /// end of the list, a stop on a cursor handed out before, or fetching
    /// after a new cursor, which is then logged.
    pub fn after_page(&mut self, next_cursor: Option<String>) -> (r: PageStep)
        ensures
            next_cursor is None ==> r == PageStep::Complete && final(self).cursors() == old(
                self,
            ).cursors(),
            next_cursor is Some && old(self).cursors().contains(next_cursor->0@) ==> r
                == PageStep::RepeatedCursor && final(self).cursors() == old(self).cursors(),
            next_cursor is Some && !old(self).cursors().contains(next_cursor->0@) ==> r is Fetch
                && final(self).cursors() == old(self).cursors().push(next_cursor->0@),
            r matches PageStep::Fetch(f) ==> next_cursor is Some && f@ == next_cursor->0@,
            old(self).cursors().no_duplicates() ==> final(self).cursors().no_duplicates(),
            step_outcome(r) == page_outcome(old(self).cursors(), crate::codex::text_of(next_cursor)),
            final(self).cursors() == cursors_after(
                old(self).cursors(),
                crate::codex::text_of(next_cursor),
            ),
    {
        let cursor = match next_cursor {
            Some(cursor) => cursor,
            None => return PageStep::Complete,
        };
        let mut i: usize = 0;
        while i < self.seen.len()
            invariant
                i <= self.seen@.len(),
                self.seen@ == old(self).seen@,
                next_cursor is Some && cursor@ == next_cursor->0@,
                forall|j: int| 0 <= j < i ==> #[trigger] self.seen@[j]@ != cursor@,
            decreases self.seen@.len() - i,
        {
            if self.seen[i] == cursor {
                assert(self.cursors()[i as int] == cursor@);
                return PageStep::RepeatedCursor;
            }
            i = i + 1;
        }
        assert(!self.cursors().contains(cursor@)) by {
            if self.cursors().contains(cursor@) {
                let j = choose|j: int| 0 <= j < self.cursors().len() && self.cursors()[j] == cursor@;
                assert(self.seen@[j]@ == cursor@);
            }
        }
        let logged = cursor.clone();
        self.seen.push(logged);
        assert(self.cursors() =~= old(self).cursors().push(cursor@));
        PageStep::Fetch(cursor)
    }
}

} // verus!
