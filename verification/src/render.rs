//! What the session shows: lines of text, each with its row on the screen.

use crate::search::{search_files, search_outcome, search_result, SearchError, SearchFailure};
use crate::session::{SearchState, StateView};
use crate::snapshot::FsNode;
use crate::text::{decimal, decimal_text, repeat, repeat_spec, texts};
use crate::traversal::paths;
use vstd::prelude::*;

verus! {

/// One line of the screen, written from the first column of `row`.
#[derive(Clone, Debug, PartialEq, Eq)]
pub struct Line {
    pub row: u16,
    pub text: String,
    /// Whether the line is the selected one and is shown in colour.
    pub highlighted: bool,
}

/// The mathematical content of a `Line`.
pub struct LineView {
    pub row: u16,
    pub text: Seq<char>,
    pub highlighted: bool,
}

impl View for Line {
    type V = LineView;

    open spec fn view(&self) -> LineView {
        LineView { row: self.row, text: self.text@, highlighted: self.highlighted }
    }
}

/// The mathematical content of a list of lines.
pub open spec fn lines(v: Seq<Line>) -> Seq<LineView> {
    v.map_values(|l: Line| l@)
}

/// The most results that are listed at a time.
pub const MAX_SHOWN: usize = 10;

/// The line that shows the query.
pub open spec fn input_line(input: Seq<char>) -> LineView {
    LineView { row: 0, text: "Search: "@ + input, highlighted: false }
}

/// The rule below the query.
pub open spec fn separator_line() -> LineView {
    LineView { row: 1, text: repeat_spec("─"@, 50), highlighted: false }
}

/// A message in the row below the rule.
pub open spec fn status_line(text: Seq<char>) -> LineView {
    LineView { row: 2, text, highlighted: false }
}

/// The heading over a list of `count` results.
pub open spec fn found_heading(count: nat) -> Seq<char> {
    "Found "@ + decimal_text(count) + " matches (↑↓ to select, Enter to edit):"@
}

/// The name a result is listed by: the final segment of its path.
pub open spec fn display_name(path: Seq<Seq<char>>) -> Seq<char> {
    if path.len() == 0 {
        "unknown"@
    } else {
        path.last()
    }
}

/// The line of result `i`, counted from zero: a marker for the selected one,
/// the result's number counted from one, and its name.
pub open spec fn entry_line(results: Seq<Seq<Seq<char>>>, selected: usize, i: int) -> LineView {
    LineView {
        row: (3 + i) as u16,
        text: (if i == selected {
            "▶ "@
        } else {
            "  "@
        }) + decimal_text((i + 1) as nat) + ". "@ + display_name(results[i]),
        highlighted: i == selected,
    }
}

/// How many of `count` results are listed.
pub open spec fn shown_count(count: nat) -> nat {
    if count < MAX_SHOWN {
        count
    } else {
        MAX_SHOWN as nat
    }
}

/// The lines that list the results of a state.
pub open spec fn listing(state: StateView) -> Seq<LineView> {
    if state.current_results.len() == 0 {
        seq![status_line("No matches"@)]
    } else {
        seq![status_line(found_heading(state.current_results.len()))] + Seq::new(
            shown_count(state.current_results.len()),
            |i: int| entry_line(state.current_results, state.selected_index, i),
        )
    }
}

impl StateView {
    /// The state without results and with the selection at the top.
    pub open spec fn cleared(self) -> StateView {
        StateView { current_results: Seq::empty(), selected_index: 0, ..self }
    }

    /// The state once a search for its query has ended in `outcome`. A list
    /// of results replaces the old one, and resets the selection, only when
    /// the query has changed since the screen was drawn. A failed search
    /// empties the results and leaves the selection as it is.
    pub open spec fn with_outcome(self, outcome: Result<Seq<Seq<Seq<char>>>, SearchFailure>) -> StateView {
        match outcome {
            Ok(found) => if self.input != self.last_input {
                StateView { current_results: found, selected_index: 0, ..self }
            } else {
                self
            },
            Err(_) => StateView { current_results: Seq::empty(), ..self },
        }
    }

    /// The state after the results part of the screen was brought up to
    /// date, where a search for the query would end in `outcome`. With an
    /// empty query no search is made.
    pub open spec fn refreshed(self, outcome: Result<Seq<Seq<Seq<char>>>, SearchFailure>) -> StateView {
        if self.input.len() == 0 {
            self.cleared()
        } else {
            self.with_outcome(outcome)
        }
    }
}

/// The lines shown for the search outcome `outcome`, where `state` is
/// the state it has led to.
pub open spec fn outcome_lines(
    state: StateView,
    outcome: Result<Seq<Seq<Seq<char>>>, SearchFailure>,
) -> Seq<LineView> {
    match outcome {
        Ok(_) => listing(state),
        Err(SearchFailure::InvalidPattern(_)) => seq![status_line("Invalid regex pattern"@)],
        Err(SearchFailure::Traversal(_)) => seq![status_line("No matches"@)],
    }
}

/// The lines of the results part of the screen.
pub open spec fn results_lines(
    state: StateView,
    outcome: Result<Seq<Seq<Seq<char>>>, SearchFailure>,
) -> Seq<LineView> {
    if state.input.len() == 0 {
        seq![status_line("Start typing to search..."@)]
    } else {
        outcome_lines(state, outcome)
    }
}

/// The whole screen: query, rule and results.
pub open spec fn screen(state: StateView, outcome: Result<Seq<Seq<Seq<char>>>, SearchFailure>) -> Seq<
    LineView,
> {
    seq![input_line(state.input), separator_line()] + results_lines(state, outcome)
}

/// The line that shows the query.
pub fn render_search_input(input: &str) -> (res: Line)
    ensures
        res@ == input_line(input@),
{
    let mut text = "Search: ".to_owned();
    text.append(input);
    Line { row: 0, text, highlighted: false }
}

/// The rule below the query.
pub fn render_separator() -> (res: Line)
    ensures
        res@ == separator_line(),
{
    Line { row: 1, text: repeat("─", 50), highlighted: false }
}

fn status(text: &str) -> (res: Vec<Line>)
    ensures
        lines(res@) == seq![status_line(text@)],
{
    let mut out: Vec<Line> = Vec::new();
    out.push(Line { row: 2, text: text.to_owned(), highlighted: false });
    proof {
        assert(lines(out@) =~= seq![status_line(text@)]);
    }
    out
}

/// Shows the prompt for an empty query: the results are dropped and the
/// selection returns to the top.
pub fn show_placeholder(state: &mut SearchState) -> (res: Vec<Line>)
    ensures
        final(state)@ == old(state)@.cleared(),
        lines(res@) == seq![status_line("Start typing to search..."@)],
{
    state.current_results.clear();
    state.selected_index = 0;
    proof {
        assert(paths(state.current_results@) =~= Seq::<Seq<Seq<char>>>::empty());
    }
    status("Start typing to search...")
}

fn list_results(state: &SearchState) -> (res: Vec<Line>)
    ensures
        lines(res@) == listing(state@),
{
    let count = state.current_results.len();
    if count == 0 {
        return status("No matches");
    }
    let mut heading = "Found ".to_owned();
    heading.append(decimal(count).as_str());
    heading.append(" matches (↑↓ to select, Enter to edit):");
    let mut out: Vec<Line> = Vec::new();
    out.push(Line { row: 2, text: heading, highlighted: false });
    let shown: usize = if count < MAX_SHOWN {
        count
    } else {
        MAX_SHOWN
    };
    let ghost results = state@.current_results;
    let ghost selected = state.selected_index;
    let ghost head = seq![status_line(found_heading(count as nat))];
    let mut i: usize = 0;
    let mut row: u16 = 3;
    proof {
        assert(lines(out@) =~= head + Seq::new(0, |j: int| entry_line(results, selected, j)));
    }
    while i < shown
        invariant
            i <= shown <= MAX_SHOWN,
            shown <= count,
            count == state.current_results.len(),
            results == state@.current_results,
            selected == state.selected_index,
            row == 3 + i,
            head == seq![status_line(found_heading(count as nat))],
            lines(out@) == head + Seq::new(i as nat, |j: int| entry_line(results, selected, j)),
        decreases shown - i,
    {
        let is_selected = i == state.selected_index;
        let mut text = if is_selected {
            "▶ ".to_owned()
        } else {
            "  ".to_owned()
        };
        text.append(decimal(i + 1).as_str());
        text.append(". ");
        let path = &state.current_results[i];
        if path.len() == 0 {
            text.append("unknown");
        } else {
            text.append(path[path.len() - 1].as_str());
        }
        let line = Line { row, text, highlighted: is_selected };
        proof {
            assert(results[i as int] == texts(path@));
            assert(texts(path@).len() > 0 ==> texts(path@).last() == path@.last()@);
            assert(line@ == entry_line(results, selected, i as int));
            let sofar = Seq::new(i as nat, |j: int| entry_line(results, selected, j));
            let next = Seq::new((i + 1) as nat, |j: int| entry_line(results, selected, j));
            assert(next =~= sofar.push(line@));
            assert(lines(out@.push(line)) =~= lines(out@).push(line@));
            assert(head + next =~= (head + sofar).push(line@));
        }
        out.push(line);
        i += 1;
        row += 1;
    }
    out
}

/// Takes the outcome of a search for the current query into the state and
/// shows it: the list of results, or the message that says why there is
/// none.
pub fn show_outcome(state: &mut SearchState, outcome: Result<Vec<Vec<String>>, SearchError>) -> (res:
    Vec<Line>)
    ensures
        final(state)@ == old(state)@.with_outcome(search_outcome(outcome)),
        lines(res@) == outcome_lines(final(state)@, search_outcome(outcome)),
        old(state)@.selection_valid() ==> final(state)@.selection_valid(),
{
    match outcome {
        Ok(files) => {
            let input_changed = !(state.input == state.last_input);
            if input_changed {
                state.current_results = files;
                state.selected_index = 0;
            }
            list_results(state)
        },
        Err(e) => {
            state.current_results.clear();
            proof {
                assert(paths(state.current_results@) =~= Seq::<Seq<Seq<char>>>::empty());
            }
            match e {
                SearchError::InvalidPattern(_) => status("Invalid regex pattern"),
                SearchError::Traversal(_) => status("No matches"),
            }
        },
    }
}

/// Brings the results part of the screen up to date. An empty query shows
/// the prompt without searching; any other query is searched for in the
/// snapshot `tree` of `base_path`, and the outcome is shown.
pub fn render_results(state: &mut SearchState, base_path: &Vec<String>, tree: &FsNode) -> (res: Vec<
    Line,
>)
    ensures
        final(state)@ == old(state)@.refreshed(
            search_result(old(state)@.input, texts(base_path@), *tree),
        ),
        lines(res@) == results_lines(
            final(state)@,
            search_result(old(state)@.input, texts(base_path@), *tree),
        ),
        old(state)@.selection_valid() ==> final(state)@.selection_valid(),
{
    if state.input.as_str().is_empty() {
        show_placeholder(state)
    } else {
        let outcome = search_files(state.input.as_str(), base_path, tree);
        show_outcome(state, outcome)
    }
}

/// Draws the whole screen for the state: the query, the rule and the
/// results, which are brought up to date on the way.
pub fn render_search_ui(state: &mut SearchState, base_path: &Vec<String>, tree: &FsNode) -> (res:
    Vec<Line>)
    ensures
        final(state)@ == old(state)@.refreshed(
            search_result(old(state)@.input, texts(base_path@), *tree),
        ),
        lines(res@) == screen(
            final(state)@,
            search_result(old(state)@.input, texts(base_path@), *tree),
        ),
        old(state)@.selection_valid() ==> final(state)@.selection_valid(),
{
    let mut out: Vec<Line> = Vec::new();
    out.push(render_search_input(state.input.as_str()));
    out.push(render_separator());
    let ghost top = lines(out@);
    let mut below = render_results(state, base_path, tree);
    let ghost bottom = lines(below@);
    out.append(&mut below);
    proof {
        assert(top =~= seq![input_line(old(state)@.input), separator_line()]);
        assert(lines(out@) =~= top + bottom);
    }
    out
}

} // verus!
