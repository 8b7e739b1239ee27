//! Application state management

use vstd::prelude::*;

use crate::block::CommandBlock;
use crate::matcher::{
    has_ascii_upper, is_fuzzy_subsequence, lemma_longer_query_matches_less, skim_fuzzy_match,
    skim_match,
};
use crate::text::{
    chars_of, chomp_cr, lemma_first_newline, lines_of, padded_decimal, pop_char, push_char, push_char_range,
    push_padded_decimal, push_str,
};
use crate::utils::{escaped, push_escaped_range, strip_ansi, stripped_text};

verus! {

/// Main application state
pub struct App {
    /// Parsed command blocks
    pub blocks: Vec<CommandBlock>,
    /// Position of the selected row in the (filtered) command list
    pub selected: Option<usize>,
    /// Vertical scroll offset for the output pane
    pub scroll_offset: u16,
    /// Current search query
    pub search_query: String,
    /// Whether we're in search mode
    pub is_searching: bool,
    /// Indices of blocks that match the current filter
    pub filtered_indices: Vec<usize>,
}

/// The better of the command's and the output's score.
pub open spec fn best_score(cmd: Option<i64>, out: Option<i64>) -> Option<i64> {
    match (cmd, out) {
        (Some(c), Some(o)) => Some(if c >= o { c } else { o }),
        (Some(c), None) => Some(c),
        (None, Some(o)) => Some(o),
        (None, None) => None,
    }
}

/// How well a block matches the query: the best of the score of its clean
/// command and that of its output with ANSI escape codes removed.
pub open spec fn block_score(b: CommandBlock, query: Seq<char>) -> Option<i64> {
    best_score(skim_match(b.clean_command@, query), skim_match(stripped_text(b.output@), query))
}

/// Whether the query's characters occur in order in the block's clean command
/// or in its output with ANSI escape codes removed (case-sensitively exactly
/// when the query holds an ASCII capital letter).
pub open spec fn block_matches(b: CommandBlock, query: Seq<char>) -> bool {
    ||| is_fuzzy_subsequence(b.clean_command@, query, has_ascii_upper(query))
    ||| is_fuzzy_subsequence(stripped_text(b.output@), query, has_ascii_upper(query))
}

/// Whether, for a non-empty query, a block has a score exactly when the query
/// matches it in order.
pub open spec fn scores_agree(blocks: Seq<CommandBlock>, query: Seq<char>) -> bool {
    query.len() > 0 ==> forall|i: int|
        0 <= i < blocks.len() ==> ((#[trigger] block_score(blocks[i], query)) is Some
            <==> block_matches(blocks[i], query))
}

/// Result order: higher score first, then lower index first.
pub open spec fn ranks_before(s1: i64, i1: usize, s2: i64, i2: usize) -> bool {
    s1 > s2 || (s1 == s2 && i1 < i2)
}

/// The indices `0, 1, ..., n - 1`.
pub open spec fn all_indices(n: nat) -> Seq<usize> {
    Seq::new(n, |i: int| i as usize)
}

/// Whether `r` is the list of block indices that the query selects: all of them,
/// in order, for an empty query; otherwise every block with a score, each once,
/// best score first and ties in block order.
pub open spec fn is_search_result(blocks: Seq<CommandBlock>, query: Seq<char>, r: Seq<usize>) -> bool {
    if query.len() == 0 {
        r == all_indices(blocks.len())
    } else {
        &&& forall|k: int|
            0 <= k < r.len() ==> #[trigger] r[k] < blocks.len() && block_score(
                blocks[r[k] as int],
                query,
            ) is Some
        &&& forall|i: int|
            0 <= i < blocks.len() && (#[trigger] block_score(blocks[i], query)) is Some ==> r.contains(
                i as usize,
            )
        &&& forall|a: int, b: int|
            0 <= a < b < r.len() ==> ranks_before(
                block_score(blocks[r[a] as int], query)->0,
                #[trigger] r[a],
                block_score(blocks[r[b] as int], query)->0,
                #[trigger] r[b],
            )
    }
}

/// A line as the debug view shows it: escaped, or as it is.
pub open spec fn shown(line: Seq<char>, escape: bool) -> Seq<char> {
    if escape {
        escaped(line)
    } else {
        line
    }
}

/// One numbered line of the debug view, as `format!("{:3}| {}\n", n, text)`
/// writes it.
pub open spec fn numbered_line(n: nat, text: Seq<char>) -> Seq<char> {
    padded_decimal(n, 3) + seq!['|', ' '] + text + seq!['\n']
}

/// The lines `ls`, numbered from `first + 1` on.
pub open spec fn numbered_lines(ls: Seq<Seq<char>>, escape: bool, first: nat) -> Seq<char>
    decreases ls.len(),
{
    if ls.len() == 0 {
        Seq::empty()
    } else {
        numbered_line(first + 1, shown(ls[0], escape)) + numbered_lines(
            ls.drop_first(),
            escape,
            first + 1,
        )
    }
}

/// The debug view of a block: its raw command, clean command and raw output,
/// line by line and numbered, control characters of the raw parts spelled out.
pub open spec fn debug_view(b: CommandBlock) -> Seq<char> {
    "=== COMMAND (raw) ===\n"@ + numbered_lines(lines_of(b.command@), true, 0)
        + "\n=== COMMAND (clean) ===\n"@ + numbered_lines(lines_of(b.clean_command@), false, 0)
        + "\n=== OUTPUT (raw) ===\n"@ + (if b.output@.len() == 0 {
        "(empty)\n"@
    } else {
        numbered_lines(lines_of(b.output@), true, 0)
    })
}

/// Appends one numbered line holding `cs[lo..hi]`.
fn push_numbered_line(out: &mut String, n: usize, cs: &[char], lo: usize, hi: usize, escape: bool)
    requires
        lo <= hi <= cs.len(),
    ensures
        final(out)@ == old(out)@ + numbered_line(
            n as nat,
            shown(cs@.subrange(lo as int, hi as int), escape),
        ),
{
    push_padded_decimal(out, n, 3);
    push_char(out, '|');
    push_char(out, ' ');
    if escape {
        push_escaped_range(out, cs, lo, hi);
    } else {
        push_char_range(out, cs, lo, hi);
    }
    push_char(out, '\n');
    proof {
        assert(out@ =~= old(out)@ + numbered_line(
            n as nat,
            shown(cs@.subrange(lo as int, hi as int), escape),
        ));
    }
}

/// Appends the lines of `s`, numbered from 1 on.
fn push_numbered_lines(out: &mut String, s: &str, escape: bool)
    ensures
        final(out)@ == old(out)@ + numbered_lines(lines_of(s@), escape, 0),
{
    let cs = chars_of(s);
    let n = cs.len();
    let mut start: usize = 0;
    let mut i: usize = 0;
    let mut count: usize = 0;
    proof {
        assert(cs@.skip(0) =~= cs@);
    }
    while i < n
        invariant
            n == cs.len(),
            cs@ == s@,
            count <= start <= i <= n,
            forall|j: int| start <= j < i ==> cs@[j] != '\n',
            out@ + numbered_lines(lines_of(cs@.skip(start as int)), escape, count as nat) == old(out)@
                + numbered_lines(lines_of(s@), escape, 0),
        decreases n - i,
    {
        if cs[i] == '\n' {
            let end = if i > start && cs[i - 1] == '\r' {
                i - 1
            } else {
                i
            };
            let ghost t = cs@.skip(start as int);
            let ghost before = out@;
            push_numbered_line(out, count + 1, cs.as_slice(), start, end, escape);
            proof {
                lemma_first_newline(t, i - start);
                assert(t.take(i - start) =~= cs@.subrange(start as int, i as int));
                assert(chomp_cr(t.take(i - start)) =~= cs@.subrange(start as int, end as int));
                assert(t.skip(i - start + 1) =~= cs@.skip(i + 1));
                assert(lines_of(t) == seq![chomp_cr(t.take(i - start))] + lines_of(
                    cs@.skip(i + 1),
                ));
                let ls = lines_of(t);
                assert(ls[0] == cs@.subrange(start as int, end as int));
                assert(ls.drop_first() =~= lines_of(cs@.skip(i + 1)));
                assert(numbered_lines(ls, escape, count as nat) == numbered_line(
                    (count + 1) as nat,
                    shown(ls[0], escape),
                ) + numbered_lines(lines_of(cs@.skip(i + 1)), escape, (count + 1) as nat));
                assert(out@ + numbered_lines(lines_of(cs@.skip(i + 1)), escape, (count + 1) as nat)
                    =~= before + numbered_lines(ls, escape, count as nat));
            }
            count = count + 1;
            start = i + 1;
        }
        i += 1;
    }
    if start < n {
        let ghost t = cs@.skip(start as int);
        let ghost before = out@;
        push_numbered_line(out, count + 1, cs.as_slice(), start, n, escape);
        proof {
            lemma_first_newline(t, n - start);
            assert(t =~= cs@.subrange(start as int, n as int));
            let ls = lines_of(t);
            assert(ls == seq![t]);
            assert(ls.drop_first() =~= Seq::<Seq<char>>::empty());
            assert(numbered_lines(ls.drop_first(), escape, (count + 1) as nat) =~= Seq::<char>::empty());
            assert(out@ =~= before + numbered_lines(ls, escape, count as nat));
        }
    } else {
        proof {
            assert(cs@.skip(start as int) =~= Seq::<char>::empty());
            assert(out@ =~= out@ + numbered_lines(lines_of(cs@.skip(start as int)), escape, count as nat));
        }
    }
}

/// The selection after moving down one row in a list of `len` rows: the next
/// row, wrapping from the last to the first.
pub open spec fn next_selection(selected: Option<usize>, len: nat) -> Option<usize> {
    match selected {
        Some(i) => if i >= len - 1 {
            Some(0usize)
        } else {
            Some((i + 1) as usize)
        },
        None => Some(0usize),
    }
}

/// The selection after moving up one row in a list of `len` rows: the previous
/// row, wrapping from the first to the last.
pub open spec fn previous_selection(selected: Option<usize>, len: nat) -> Option<usize> {
    match selected {
        Some(i) => if i == 0 {
            Some((len - 1) as usize)
        } else {
            Some((i - 1) as usize)
        },
        None => Some(0usize),
    }
}

/// The scroll offset after scrolling down one line (it stops at the top value).
pub open spec fn scrolled_down(offset: u16) -> u16 {
    if offset < u16::MAX {
        (offset + 1) as u16
    } else {
        offset
    }
}

/// The scroll offset after scrolling up one line (it stops at 0).
pub open spec fn scrolled_up(offset: u16) -> u16 {
    if offset > 0 {
        (offset - 1) as u16
    } else {
        offset
    }
}

impl App {
    /// The state that every operation keeps: the listed indices are those the
    /// query selects, and a row is selected exactly when the list has rows, and
    /// then one of them.
    pub open spec fn wf(&self) -> bool {
        &&& is_search_result(self.blocks@, self.search_query@, self.filtered_indices@)
        &&& scores_agree(self.blocks@, self.search_query@)
        &&& match self.selected {
            Some(i) => i < self.filtered_indices.len(),
            None => self.filtered_indices.len() == 0,
        }
    }

    /// The index of the block under the selected row, if any.
    pub open spec fn selected_data_index(&self) -> Option<usize> {
        match self.selected {
            Some(i) => if i < self.filtered_indices.len() {
                Some(self.filtered_indices@[i as int])
            } else {
                None
            },
            None => None,
        }
    }

    /// The index of the selected block, if the selection leads to one.
    pub open spec fn selected_block_index(&self) -> Option<usize> {
        match self.selected_data_index() {
            Some(d) => if d < self.blocks.len() {
                Some(d)
            } else {
                None
            },
            None => None,
        }
    }

    /// Create a new App with the given command blocks
    pub fn new(blocks: Vec<CommandBlock>) -> (app: Self)
        ensures
            app.blocks == blocks,
            app.filtered_indices@ == all_indices(blocks.len() as nat),
            app.selected == (if blocks.len() > 0 {
                Some(0usize)
            } else {
                None
            }),
            app.scroll_offset == 0,
            app.search_query@ == Seq::<char>::empty(),
            !app.is_searching,
            app.wf(),
    {
        // Select first item if available
        let selected = if blocks.len() > 0 {
            Some(0)
        } else {
            None
        };
        // Initialize with all indices
        let n = blocks.len();
        let mut filtered_indices: Vec<usize> = Vec::new();
        let mut i: usize = 0;
        while i < n
            invariant
                i <= n,
                filtered_indices@ == all_indices(i as nat),
            decreases n - i,
        {
            filtered_indices.push(i);
            proof {
                assert(filtered_indices@ =~= all_indices((i + 1) as nat));
            }
            i += 1;
        }
        App {
            blocks,
            selected,
            scroll_offset: 0,
            search_query: String::new(),
            is_searching: false,
            filtered_indices,
        }
    }

    /// Get the actual data index from the visual list selection
    fn get_current_data_index(&self) -> (r: Option<usize>)
        ensures
            r == self.selected_data_index(),
    {
        match self.selected {
            Some(i) => if i < self.filtered_indices.len() {
                Some(self.filtered_indices[i])
            } else {
                None
            },
            None => None,
        }
    }

    /// The index of the selected block, if the selection leads to one.
    pub fn get_selected_block_index(&self) -> (r: Option<usize>)
        ensures
            r == self.selected_block_index(),
    {
        match self.get_current_data_index() {
            Some(d) => if d < self.blocks.len() {
                Some(d)
            } else {
                None
            },
            None => None,
        }
    }

    /// The selected block, if any.
    fn current_block(&self) -> (r: Option<&CommandBlock>)
        ensures
            match self.selected_block_index() {
                Some(d) => r == Some(&self.blocks@[d as int]),
                None => r is None,
            },
    {
        match self.get_current_data_index() {
            Some(d) => if d < self.blocks.len() {
                Some(&self.blocks[d])
            } else {
                None
            },
            None => None,
        }
    }

    /// Move selection to the next item
    pub fn next(&mut self)
        ensures
            old(self).filtered_indices.len() == 0 ==> *final(self) == *old(self),
            old(self).filtered_indices.len() > 0 ==> {
                &&& final(self).selected == next_selection(
                    old(self).selected,
                    old(self).filtered_indices.len() as nat,
                )
                &&& final(self).scroll_offset == 0
                &&& final(self).blocks == old(self).blocks
                &&& final(self).filtered_indices == old(self).filtered_indices
                &&& final(self).search_query == old(self).search_query
                &&& final(self).is_searching == old(self).is_searching
            },
            old(self).wf() ==> final(self).wf(),
    {
        if self.filtered_indices.len() == 0 {
            return;
        }
        let i = match self.selected {
            Some(i) => {
                if i >= self.filtered_indices.len() - 1 {
                    // Wrap to beginning
                    0
                } else {
                    i + 1
                }
            },
            None => 0,
        };
        self.selected = Some(i);
        self.scroll_offset = 0;  // Reset scroll when changing selection
    }

    /// Move selection to the previous item
    pub fn previous(&mut self)
        ensures
            old(self).filtered_indices.len() == 0 ==> *final(self) == *old(self),
            old(self).filtered_indices.len() > 0 ==> {
                &&& final(self).selected == previous_selection(
                    old(self).selected,
                    old(self).filtered_indices.len() as nat,
                )
                &&& final(self).scroll_offset == 0
                &&& final(self).blocks == old(self).blocks
                &&& final(self).filtered_indices == old(self).filtered_indices
                &&& final(self).search_query == old(self).search_query
                &&& final(self).is_searching == old(self).is_searching
            },
            old(self).wf() ==> final(self).wf(),
    {
        if self.filtered_indices.len() == 0 {
            return;
        }
        let i = match self.selected {
            Some(i) => {
                if i == 0 {
                    // Wrap to end
                    self.filtered_indices.len() - 1
                } else {
                    i - 1
                }
            },
            None => 0,
        };
        self.selected = Some(i);
        self.scroll_offset = 0;  // Reset scroll when changing selection
    }

    /// Scroll the output pane down
    pub fn scroll_down(&mut self)
        ensures
            final(self).scroll_offset == scrolled_down(old(self).scroll_offset),
            final(self).blocks == old(self).blocks,
            final(self).selected == old(self).selected,
            final(self).filtered_indices == old(self).filtered_indices,
            final(self).search_query == old(self).search_query,
            final(self).is_searching == old(self).is_searching,
            old(self).wf() ==> final(self).wf(),
    {
        self.scroll_offset = self.scroll_offset.saturating_add(1);
    }

    /// Scroll the output pane up
    pub fn scroll_up(&mut self)
        ensures
            final(self).scroll_offset == scrolled_up(old(self).scroll_offset),
            final(self).blocks == old(self).blocks,
            final(self).selected == old(self).selected,
            final(self).filtered_indices == old(self).filtered_indices,
            final(self).search_query == old(self).search_query,
            final(self).is_searching == old(self).is_searching,
            old(self).wf() ==> final(self).wf(),
    {
        self.scroll_offset = self.scroll_offset.saturating_sub(1);
    }

    /// Handle character input during search
    pub fn on_search_input(&mut self, c: char)
        ensures
            final(self).search_query@ == old(self).search_query@.push(c),
            final(self).blocks == old(self).blocks,
            final(self).is_searching == old(self).is_searching,
            is_search_result(final(self).blocks@, final(self).search_query@, final(self).filtered_indices@),
            final(self).selected == (if final(self).filtered_indices.len() > 0 {
                Some(0usize)
            } else {
                None
            }),
            final(self).scroll_offset == 0,
            final(self).wf(),
    {
        push_char(&mut self.search_query, c);
        self.update_search_results();
    }

    /// Handle backspace during search
    pub fn on_search_backspace(&mut self)
        ensures
            final(self).search_query@ == (if old(self).search_query@.len() > 0 {
                old(self).search_query@.drop_last()
            } else {
                old(self).search_query@
            }),
            final(self).blocks == old(self).blocks,
            final(self).is_searching == old(self).is_searching,
            is_search_result(final(self).blocks@, final(self).search_query@, final(self).filtered_indices@),
            final(self).selected == (if final(self).filtered_indices.len() > 0 {
                Some(0usize)
            } else {
                None
            }),
            final(self).scroll_offset == 0,
            final(self).wf(),
    {
        let _ = pop_char(&mut self.search_query);
        self.update_search_results();
    }

    /// Clear search and restore full list
    pub fn clear_search(&mut self)
        ensures
            final(self).search_query@ == Seq::<char>::empty(),
            !final(self).is_searching,
            final(self).blocks == old(self).blocks,
            final(self).filtered_indices@ == all_indices(old(self).blocks.len() as nat),
            final(self).selected == (if old(self).blocks.len() > 0 {
                Some(0usize)
            } else {
                None
            }),
            final(self).scroll_offset == 0,
            final(self).wf(),
    {
        self.search_query = String::new();
        self.is_searching = false;
        self.update_search_results();
    }

    /// Get the output of the currently selected block (ANSI stripped for copying)
    pub fn get_selected_output(&self) -> (r: Option<String>)
        ensures
            match self.selected_block_index() {
                Some(d) => r is Some && r->0@ == stripped_text(self.blocks@[d as int].output@),
                None => r is None,
            },
    {
        match self.current_block() {
            Some(b) => Some(strip_ansi(b.output.as_str())),
            None => None,
        }
    }

    /// Get the command text only (prompt removed) for copying
    pub fn get_selected_command(&self) -> (r: Option<String>)
        ensures
            match self.selected_block_index() {
                Some(d) => r is Some && r->0@ == self.blocks@[d as int].command_text@,
                None => r is None,
            },
    {
        match self.current_block() {
            Some(b) => Some(b.command_text.clone()),
            None => None,
        }
    }

    /// Get the full content (command + output) of the currently selected block (ANSI stripped)
    pub fn get_selected_full(&self) -> (r: Option<String>)
        ensures
            match self.selected_block_index() {
                Some(d) => r is Some && r->0@ == stripped_text(self.blocks@[d as int].command@)
                    + seq!['\n'] + stripped_text(self.blocks@[d as int].output@),
                None => r is None,
            },
    {
        match self.current_block() {
            Some(b) => {
                let mut full = strip_ansi(b.command.as_str());
                push_char(&mut full, '\n');
                let out = strip_ansi(b.output.as_str());
                push_str(&mut full, out.as_str());
                Some(full)
            },
            None => None,
        }
    }

    /// Get debug-formatted output for diagnosing parsing issues
    pub fn get_selected_debug(&self) -> (r: Option<String>)
        ensures
            match self.selected_block_index() {
                Some(d) => r is Some && r->0@ == debug_view(self.blocks@[d as int]),
                None => r is None,
            },
    {
        match self.current_block() {
            Some(b) => {
                let mut out = String::new();
                push_str(&mut out, "=== COMMAND (raw) ===\n");
                push_numbered_lines(&mut out, b.command.as_str(), true);
                push_str(&mut out, "\n=== COMMAND (clean) ===\n");
                push_numbered_lines(&mut out, b.clean_command.as_str(), false);
                push_str(&mut out, "\n=== OUTPUT (raw) ===\n");
                if b.output.as_str().is_empty() {
                    push_str(&mut out, "(empty)\n");
                } else {
                    push_numbered_lines(&mut out, b.output.as_str(), true);
                }
                proof {
                    assert(out@ =~= debug_view(*b));
                }
                Some(out)
            },
            None => None,
        }
    }

    /// Get the currently selected block for display
    pub fn get_selected_block(&self) -> (r: Option<&CommandBlock>)
        ensures
            match self.selected_block_index() {
                Some(d) => r == Some(&self.blocks@[d as int]),
                None => r is None,
            },
    {
        self.current_block()
    }

    /// Update filtered results based on current search query
    pub fn update_search_results(&mut self)
        ensures
            final(self).blocks == old(self).blocks,
            final(self).search_query == old(self).search_query,
            final(self).is_searching == old(self).is_searching,
            is_search_result(final(self).blocks@, final(self).search_query@, final(self).filtered_indices@),
            final(self).selected == (if final(self).filtered_indices.len() > 0 {
                Some(0usize)
            } else {
                None
            }),
            final(self).scroll_offset == 0,
            scores_agree(final(self).blocks@, final(self).search_query@),
            final(self).wf(),
    {
        if self.search_query.as_str().is_empty() {
            let n = self.blocks.len();
            let mut all: Vec<usize> = Vec::new();
            let mut i: usize = 0;
            while i < n
                invariant
                    i <= n,
                    all@ == all_indices(i as nat),
                decreases n - i,
            {
                all.push(i);
                proof {
                    assert(all@ =~= all_indices((i + 1) as nat));
                }
                i += 1;
            }
            self.filtered_indices = all;
        } else {
            let ghost q = self.search_query@;
            let ghost bs = self.blocks@;
            let n = self.blocks.len();
            let mut matches: Vec<(i64, usize)> = Vec::new();
            let mut idx: usize = 0;
            while idx < n
                invariant
                    n == self.blocks.len(),
                    bs == self.blocks@,
                    q == self.search_query@,
                    idx <= n,
                    q.len() > 0,
                    forall|k: int|
                        0 <= k < idx ==> ((#[trigger] block_score(bs[k], q)) is Some <==> block_matches(
                            bs[k],
                            q,
                        )),
                    forall|a: int|
                        0 <= a < matches.len() ==> (#[trigger] matches@[a]).1 < idx && block_score(
                            bs[matches@[a].1 as int],
                            q,
                        ) == Some(matches@[a].0),
                    forall|k: int|
                        0 <= k < idx && (#[trigger] block_score(bs[k], q)) is Some ==> exists|a: int|
                            0 <= a < matches.len() && (#[trigger] matches@[a]).1 == k,
                    forall|a: int, b: int|
                        0 <= a < b < matches.len() ==> ranks_before(
                            (#[trigger] matches@[a]).0,
                            matches@[a].1,
                            (#[trigger] matches@[b]).0,
                            matches@[b].1,
                        ),
                decreases n - idx,
            {
                let block = &self.blocks[idx];
                // Match against clean command and ANSI-stripped output
                let cmd_score = skim_fuzzy_match(block.clean_command.as_str(), self.search_query.as_str());
                let clean_output = strip_ansi(block.output.as_str());
                let out_score = skim_fuzzy_match(clean_output.as_str(), self.search_query.as_str());
                // Take best score from either
                let best = match (cmd_score, out_score) {
                    (Some(c), Some(o)) => Some(if c >= o { c } else { o }),
                    (Some(c), None) => Some(c),
                    (None, Some(o)) => Some(o),
                    (None, None) => None,
                };
                assert(best == block_score(bs[idx as int], q));
                assert(best is Some <==> block_matches(bs[idx as int], q));
                if let Some(s) = best {
                    // Place it after every match scoring at least as well; those
                    // all have a lower index, so ties keep block order.
                    let mut p: usize = 0;
                    while p < matches.len() && matches[p].0 >= s
                        invariant
                            p <= matches.len(),
                            forall|a: int| 0 <= a < p ==> (#[trigger] matches@[a]).0 >= s,
                        decreases matches.len() - p,
                    {
                        p += 1;
                    }
                    let ghost old_m = matches@;
                    matches.insert(p, (s, idx));
                    proof {
                        assert(matches@ == old_m.insert(p as int, (s, idx)));
                        assert forall|a: int, b: int|
                            0 <= a < b < matches.len() implies ranks_before(
                            (#[trigger] matches@[a]).0,
                            matches@[a].1,
                            (#[trigger] matches@[b]).0,
                            matches@[b].1,
                        ) by {
                            if a < p && b < p {
                                assert(matches@[a] == old_m[a] && matches@[b] == old_m[b]);
                            } else if a < p && b == p {
                                assert(matches@[a] == old_m[a]);
                            } else if a < p {
                                assert(matches@[a] == old_m[a] && matches@[b] == old_m[b - 1]);
                            } else if a == p {
                                assert(matches@[b] == old_m[b - 1]);
                                assert(old_m[p as int].0 < s);
                                if b - 1 > p {
                                    assert(ranks_before(
                                        old_m[p as int].0,
                                        old_m[p as int].1,
                                        old_m[b - 1].0,
                                        old_m[b - 1].1,
                                    ));
                                }
                            } else {
                                assert(matches@[a] == old_m[a - 1] && matches@[b] == old_m[b - 1]);
                            }
                        }
                        assert forall|k: int|
                            0 <= k < idx + 1 && (#[trigger] block_score(bs[k], q)) is Some implies exists|a: int|
                                0 <= a < matches.len() && (#[trigger] matches@[a]).1 == k by {
                            if k == idx {
                                assert(matches@[p as int].1 == k);
                            } else {
                                let a0 = choose|a: int| 0 <= a < old_m.len() && (#[trigger] old_m[a]).1 == k;
                                if a0 < p {
                                    assert(matches@[a0].1 == k);
                                } else {
                                    assert(matches@[a0 + 1].1 == k);
                                }
                            }
                        }
                        assert forall|a: int| 0 <= a < matches.len() implies (#[trigger] matches@[a]).1 < idx + 1
                            && block_score(bs[matches@[a].1 as int], q) == Some(matches@[a].0) by {
                            if a < p {
                                assert(matches@[a] == old_m[a]);
                            } else if a > p {
                                assert(matches@[a] == old_m[a - 1]);
                            }
                        }
                    }
                }
                idx += 1;
            }
            // Keep only the block indices, in rank order
            let mut result: Vec<usize> = Vec::new();
            let mut j: usize = 0;
            while j < matches.len()
                invariant
                    j <= matches.len(),
                    result.len() == j,
                    forall|a: int| 0 <= a < j ==> #[trigger] result@[a] == matches@[a].1,
                decreases matches.len() - j,
            {
                result.push(matches[j].1);
                j += 1;
            }
            proof {
                assert forall|a: int| 0 <= a < matches.len() implies #[trigger] block_score(
                    bs[result@[a] as int],
                    q,
                )->0 == matches@[a].0 by {
                    assert(block_score(bs[matches@[a].1 as int], q) == Some(matches@[a].0));
                }
                assert forall|i: int|
                    0 <= i < bs.len() && (#[trigger] block_score(bs[i], q)) is Some implies result@.contains(
                    i as usize,
                ) by {
                    let a = choose|a: int| 0 <= a < matches.len() && (#[trigger] matches@[a]).1 == i;
                    assert(result@[a] == i as usize);
                }
                assert forall|a: int, b: int| 0 <= a < b < result.len() implies ranks_before(
                    block_score(bs[result@[a] as int], q)->0,
                    #[trigger] result@[a],
                    block_score(bs[result@[b] as int], q)->0,
                    #[trigger] result@[b],
                ) by {
                    assert(ranks_before(matches@[a].0, matches@[a].1, matches@[b].0, matches@[b].1));
                    assert(block_score(bs[matches@[a].1 as int], q) == Some(matches@[a].0));
                    assert(block_score(bs[matches@[b].1 as int], q) == Some(matches@[b].0));
                }
                assert forall|k: int| 0 <= k < result.len() implies #[trigger] result@[k] < bs.len()
                    && block_score(bs[result@[k] as int], q) is Some by {
                    assert(block_score(bs[matches@[k].1 as int], q) == Some(matches@[k].0));
                }
            }
            self.filtered_indices = result;
        }

        // Reset selection to top of results
        if self.filtered_indices.len() > 0 {
            self.selected = Some(0);
        } else {
            self.selected = None;
        }
        self.scroll_offset = 0;
    }
}

/// Whether block `x` comes before block `y` in the results of `query`.
pub open spec fn result_before(blocks: Seq<CommandBlock>, query: Seq<char>, x: usize, y: usize) -> bool {
    ranks_before(
        block_score(blocks[x as int], query)->0,
        x,
        block_score(blocks[y as int], query)->0,
        y,
    )
}

/// Whether `r` is listed in result order.
pub open spec fn in_result_order(blocks: Seq<CommandBlock>, query: Seq<char>, r: Seq<usize>) -> bool {
    forall|a: int, b: int|
        0 <= a < b < r.len() ==> result_before(blocks, query, #[trigger] r[a], #[trigger] r[b])
}

/// Two lists in result order that hold the same indices are the same list.
proof fn lemma_ordered_lists_equal(
    blocks: Seq<CommandBlock>,
    query: Seq<char>,
    r1: Seq<usize>,
    r2: Seq<usize>,
)
    requires
        in_result_order(blocks, query, r1),
        in_result_order(blocks, query, r2),
        forall|x: usize| r1.contains(x) <==> r2.contains(x),
    ensures
        r1 == r2,
    decreases r1.len(),
{
    if r1.len() == 0 {
        if r2.len() > 0 {
            assert(r2.contains(r2[0]));
        }
        assert(r1 =~= r2);
    } else if r2.len() == 0 {
        assert(r1.contains(r1[0]));
    } else {
        let x = r1[0];
        let y = r2[0];
        if x != y {
            assert(r1.contains(x));
            let b = choose|b: int| 0 <= b < r2.len() && r2[b] == x;
            assert(result_before(blocks, query, r2[0], r2[b]));
            assert(r2.contains(y));
            let a = choose|a: int| 0 <= a < r1.len() && r1[a] == y;
            assert(result_before(blocks, query, r1[0], r1[a]));
        }
        let t1 = r1.drop_first();
        let t2 = r2.drop_first();
        assert forall|z: usize| t1.contains(z) implies t2.contains(z) by {
            let c = choose|c: int| 0 <= c < t1.len() && t1[c] == z;
            assert(r1[c + 1] == z);
            if z == x {
                assert(result_before(blocks, query, r1[0], r1[c + 1]));
            }
            assert(r1.contains(z));
            assert(r2.contains(z));
            let d = choose|d: int| 0 <= d < r2.len() && r2[d] == z;
            assert(d != 0);
            assert(t2[d - 1] == z);
        }
        assert forall|z: usize| t2.contains(z) implies t1.contains(z) by {
            let c = choose|c: int| 0 <= c < t2.len() && t2[c] == z;
            assert(r2[c + 1] == z);
            if z == y {
                assert(result_before(blocks, query, r2[0], r2[c + 1]));
            }
            assert(r2.contains(z));
            assert(r1.contains(z));
            let d = choose|d: int| 0 <= d < r1.len() && r1[d] == z;
            assert(d != 0);
            assert(t1[d - 1] == z);
        }
        assert forall|a: int, b: int| 0 <= a < b < t1.len() implies result_before(
            blocks,
            query,
            #[trigger] t1[a],
            #[trigger] t1[b],
        ) by {
            assert(t1[a] == r1[a + 1] && t1[b] == r1[b + 1]);
        }
        assert forall|a: int, b: int| 0 <= a < b < t2.len() implies result_before(
            blocks,
            query,
            #[trigger] t2[a],
            #[trigger] t2[b],
        ) by {
            assert(t2[a] == r2[a + 1] && t2[b] == r2[b + 1]);
        }
        lemma_ordered_lists_equal(blocks, query, t1, t2);
        assert forall|k: int| 0 <= k < r1.len() implies r1[k] == r2[k] by {
            if k > 0 {
                assert(r1[k] == t1[k - 1] && r2[k] == t2[k - 1]);
            }
        }
        assert(r1 =~= r2);
    }
}

/// A search has exactly one result: for given blocks and query, the listed
/// indices and their order are determined.
pub proof fn lemma_search_result_unique(
    blocks: Seq<CommandBlock>,
    query: Seq<char>,
    r1: Seq<usize>,
    r2: Seq<usize>,
)
    requires
        is_search_result(blocks, query, r1),
        is_search_result(blocks, query, r2),
    ensures
        r1 == r2,
{
    if query.len() > 0 {
        assert forall|a: int, b: int| 0 <= a < b < r1.len() implies result_before(
            blocks,
            query,
            #[trigger] r1[a],
            #[trigger] r1[b],
        ) by {}
        assert forall|a: int, b: int| 0 <= a < b < r2.len() implies result_before(
            blocks,
            query,
            #[trigger] r2[a],
            #[trigger] r2[b],
        ) by {}
        assert forall|x: usize| r1.contains(x) implies r2.contains(x) by {
            let k = choose|k: int| 0 <= k < r1.len() && r1[k] == x;
            assert(r1[k] < blocks.len() && block_score(blocks[r1[k] as int], query) is Some);
            assert(block_score(blocks[x as int], query) is Some);
        }
        assert forall|x: usize| r2.contains(x) implies r1.contains(x) by {
            let k = choose|k: int| 0 <= k < r2.len() && r2[k] == x;
            assert(r2[k] < blocks.len() && block_score(blocks[r2[k] as int], query) is Some);
            assert(block_score(blocks[x as int], query) is Some);
        }
        lemma_ordered_lists_equal(blocks, query, r1, r2);
    }
}

/// Typing a character and deleting it again gives back the query and the list
/// of results from before.
pub proof fn lemma_backspace_undoes_input(before: App, after: App, c: char)
    requires
        before.wf(),
        after.wf(),
        after.blocks@ == before.blocks@,
        after.search_query@ == before.search_query@.push(c).drop_last(),
    ensures
        after.search_query@ == before.search_query@,
        after.filtered_indices@ == before.filtered_indices@,
{
    assert(before.search_query@.push(c).drop_last() =~= before.search_query@);
    lemma_search_result_unique(
        before.blocks@,
        before.search_query@,
        after.filtered_indices@,
        before.filtered_indices@,
    );
}

/// Typing one more character can only narrow the results: every block listed
/// afterwards was listed before.
pub proof fn lemma_typing_narrows_results(before: App, after: App, c: char)
    requires
        before.wf(),
        after.wf(),
        after.blocks@ == before.blocks@,
        after.search_query@ == before.search_query@.push(c),
    ensures
        forall|k: int|
            0 <= k < after.filtered_indices.len() ==> before.filtered_indices@.contains(
                #[trigger] after.filtered_indices@[k],
            ),
{
    let bs = before.blocks@;
    let q = before.search_query@;
    let q2 = after.search_query@;
    assert(q2.len() > 0);
    assert forall|k: int| 0 <= k < after.filtered_indices.len() implies before.filtered_indices@.contains(
        #[trigger] after.filtered_indices@[k],
    ) by {
        let d = after.filtered_indices@[k];
        assert(d < bs.len() && block_score(bs[d as int], q2) is Some);
        assert(block_matches(bs[d as int], q2));
        let b = bs[d as int];
        if is_fuzzy_subsequence(b.clean_command@, q2, has_ascii_upper(q2)) {
            lemma_longer_query_matches_less(b.clean_command@, q, c);
        } else {
            lemma_longer_query_matches_less(stripped_text(b.output@), q, c);
        }
        assert(block_matches(b, q));
        if q.len() == 0 {
            assert(before.filtered_indices@[d as int] == d);
        } else {
            assert(block_score(bs[d as int], q) is Some);
        }
    }
}

/// A block's score is the better of its two scores: with both its command and
/// its ANSI-stripped output matched, the score is at least each of them and
/// one of them; with one of them matched, it is that one's; with neither, the
/// block has no score.
pub proof fn lemma_block_score_is_best(b: CommandBlock, query: Seq<char>)
    ensures
        ({
            let c = skim_match(b.clean_command@, query);
            let o = skim_match(stripped_text(b.output@), query);
            &&& (c is Some && o is Some) ==> (block_score(b, query) matches Some(s) && s >= c->0
                && s >= o->0 && (s == c->0 || s == o->0))
            &&& (c is Some && o is None) ==> block_score(b, query) == c
            &&& (c is None && o is Some) ==> block_score(b, query) == o
            &&& (c is None && o is None) ==> block_score(b, query) is None
        }),
{
}

/// The listed blocks are ranked best score first, and blocks of equal score
/// keep their order; an empty query lists every block in order.
pub proof fn lemma_results_ranked(app: App)
    requires
        app.wf(),
    ensures
        app.search_query@.len() > 0 ==> forall|a: int, b: int|
            #![trigger app.filtered_indices@[a], app.filtered_indices@[b]]
            0 <= a < b < app.filtered_indices.len() ==> ({
                let x = app.filtered_indices@[a];
                let y = app.filtered_indices@[b];
                let sx = block_score(app.blocks@[x as int], app.search_query@)->0;
                let sy = block_score(app.blocks@[y as int], app.search_query@)->0;
                sx >= sy && (sx == sy ==> x < y)
            }),
        app.search_query@.len() == 0 ==> app.filtered_indices.len() == app.blocks.len() && forall|
            i: int,
        | 0 <= i < app.filtered_indices.len() ==> #[trigger] app.filtered_indices@[i] == i,
{
    if app.search_query@.len() > 0 {
        assert forall|a: int, b: int|
            #![trigger app.filtered_indices@[a], app.filtered_indices@[b]]
            0 <= a < b < app.filtered_indices.len() implies ({
            let x = app.filtered_indices@[a];
            let y = app.filtered_indices@[b];
            let sx = block_score(app.blocks@[x as int], app.search_query@)->0;
            let sy = block_score(app.blocks@[y as int], app.search_query@)->0;
            sx >= sy && (sx == sy ==> x < y)
        }) by {
            assert(ranks_before(
                block_score(app.blocks@[app.filtered_indices@[a] as int], app.search_query@)->0,
                app.filtered_indices@[a],
                block_score(app.blocks@[app.filtered_indices@[b] as int], app.search_query@)->0,
                app.filtered_indices@[b],
            ));
        }
    }
}

/// For a non-empty query, the list holds exactly the blocks whose command or
/// ANSI-stripped output holds the query's characters in order, each once.
pub proof fn lemma_results_are_matches(app: App)
    requires
        app.wf(),
        app.search_query@.len() > 0,
    ensures
        forall|i: int|
            0 <= i < app.blocks.len() ==> (app.filtered_indices@.contains(i as usize) <==> block_matches(
                #[trigger] app.blocks@[i],
                app.search_query@,
            )),
        forall|a: int, b: int|
            0 <= a < b < app.filtered_indices.len() ==> #[trigger] app.filtered_indices@[a]
                != #[trigger] app.filtered_indices@[b],
{
    let q = app.search_query@;
    let bs = app.blocks@;
    let f = app.filtered_indices@;
    assert forall|i: int| 0 <= i < bs.len() implies (f.contains(i as usize) <==> block_matches(
        #[trigger] bs[i],
        q,
    )) by {
        assert(bs.len() == app.blocks.len());
        assert((i as usize) as int == i);
        if f.contains(i as usize) {
            let k = choose|k: int| 0 <= k < f.len() && f[k] == i as usize;
            assert(f[k] < bs.len() && block_score(bs[f[k] as int], q) is Some);
            assert(block_score(bs[i], q) is Some);
        }
        if block_matches(bs[i], q) {
            assert(block_score(bs[i], q) is Some);
        }
    }
    assert forall|a: int, b: int| 0 <= a < b < f.len() implies #[trigger] f[a] != #[trigger] f[b] by {
        assert(ranks_before(
            block_score(bs[f[a] as int], q)->0,
            f[a],
            block_score(bs[f[b] as int], q)->0,
            f[b],
        ));
    }
}

/// Whether `suffix` is how `s` ends.
pub open spec fn ends_with(s: Seq<char>, suffix: Seq<char>) -> bool {
    suffix.len() <= s.len() && s.subrange(s.len() - suffix.len(), s.len() as int) == suffix
}

/// The lines of a non-empty text: at least one.
pub proof fn lemma_lines_of_not_empty(s: Seq<char>)
    requires
        s.len() > 0,
    ensures
        lines_of(s).len() > 0,
{
}

/// The output section of the debug view says "(empty)" exactly when the
/// output has no characters at all; otherwise it ends the view with every line
/// of the output, numbered from 1, the first of them numbered "  1".
pub proof fn lemma_debug_output_section(b: CommandBlock)
    ensures
        b.output@.len() == 0 ==> ends_with(debug_view(b), "(empty)\n"@),
        b.output@.len() > 0 ==> ends_with(
            debug_view(b),
            numbered_lines(lines_of(b.output@), true, 0),
        ),
        b.output@.len() > 0 ==> numbered_lines(lines_of(b.output@), true, 0).take(5) == seq![
            ' ',
            ' ',
            '1',
            '|',
            ' ',
        ],
{
    let v = debug_view(b);
    let sec = if b.output@.len() == 0 {
        "(empty)\n"@
    } else {
        numbered_lines(lines_of(b.output@), true, 0)
    };
    let pre = "=== COMMAND (raw) ===\n"@ + numbered_lines(lines_of(b.command@), true, 0)
        + "\n=== COMMAND (clean) ===\n"@ + numbered_lines(lines_of(b.clean_command@), false, 0)
        + "\n=== OUTPUT (raw) ===\n"@;
    assert(v == pre + sec);
    assert(v.subrange(v.len() - sec.len(), v.len() as int) =~= sec);
    if b.output@.len() > 0 {
        let ls = lines_of(b.output@);
        lemma_lines_of_not_empty(b.output@);
        reveal_with_fuel(crate::text::decimal, 2);
        assert(padded_decimal(1, 3) =~= seq![' ', ' ', '1']);
        let first = numbered_line(1, shown(ls[0], true));
        assert(numbered_lines(ls, true, 0) == first + numbered_lines(ls.drop_first(), true, 1));
        assert(first.take(5) =~= seq![' ', ' ', '1', '|', ' ']);
        assert(numbered_lines(ls, true, 0).take(5) =~= first.take(5));
    }
}

/// Moving up after moving down returns to the row that was selected.
pub proof fn lemma_previous_undoes_next(i: usize, len: nat)
    requires
        i < len,
        len <= usize::MAX,
    ensures
        previous_selection(next_selection(Some(i), len), len) == Some(i),
{
}

/// Moving down after moving up returns to the row that was selected.
pub proof fn lemma_next_undoes_previous(i: usize, len: nat)
    requires
        i < len,
        len <= usize::MAX,
    ensures
        next_selection(previous_selection(Some(i), len), len) == Some(i),
{
}

/// Moving down and up keeps a selection on one of the rows.
pub proof fn lemma_selection_stays_in_list(selected: Option<usize>, len: nat)
    requires
        0 < len <= usize::MAX,
        selected matches Some(i) ==> i < len,
    ensures
        next_selection(selected, len)->0 < len,
        previous_selection(selected, len)->0 < len,
{
}

/// Scrolling up after scrolling down returns to the same offset, unless the
/// offset was already at its top value.
pub proof fn lemma_scroll_up_undoes_scroll_down(offset: u16)
    requires
        offset < u16::MAX,
    ensures
        scrolled_up(scrolled_down(offset)) == offset,
{
}

/// In a well-formed state the selection leads to a block exactly when the list
/// has rows, and that block is one the list shows.
pub proof fn lemma_selection_leads_to_block(app: App)
    requires
        app.wf(),
    ensures
        app.selected_block_index() is Some <==> app.filtered_indices.len() > 0,
        app.selected_block_index() matches Some(d) ==> app.filtered_indices@.contains(d),
{
    if let Some(i) = app.selected {
        let d = app.filtered_indices@[i as int];
        if app.search_query@.len() > 0 {
            assert(d < app.blocks.len());
        }
        assert(app.filtered_indices@.contains(d));
    }
}

} // verus!
