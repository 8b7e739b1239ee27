//! What the two panes of the interface show: the rows of the command list,
//! with the characters the search matched highlighted, and the title and
//! content of the output pane.

use vstd::prelude::*;
use vstd::string::StringSliceAdditionalSpecFns;
use vstd::utf8::*;

use crate::app::App;
use crate::matcher::{skim_fuzzy_positions, skim_match_positions};
use crate::styled::{plain, push_span, Color, Line, Span, SpanView, Style};
use crate::text::{
    chars_of, decimal, owned, padded_decimal, push_char, push_decimal, push_padded_decimal, push_str,
};

verus! {

broadcast use vstd::utf8::encode_utf8_decode_utf8;

/// The longest command (in UTF-8 bytes) that the list shows whole.
pub open spec fn max_command_bytes() -> nat {
    40
}

/// A command as the list shows it: whole when it takes at most 40 bytes,
/// otherwise its first 39 bytes followed by an ellipsis.
pub open spec fn displayed_command(cmd: Seq<char>) -> Seq<char> {
    if encode_utf8(cmd).len() > max_command_bytes() {
        decode_utf8(encode_utf8(cmd).subrange(0, 39)) + seq!['\u{2026}']
    } else {
        cmd
    }
}

/// Whether the list can cut the command short where it does: a long command is
/// cut after its 39th byte, which must end a character.
pub open spec fn command_cut_ok(cmd: Seq<char>) -> bool {
    encode_utf8(cmd).len() > max_command_bytes() ==> is_char_boundary(encode_utf8(cmd), 39)
}

/// The title of the output pane: the number of the selected block (as the
/// list numbers it) out of how many blocks there are, when a block is
/// selected.
pub open spec fn output_title_text(selected_block: Option<usize>, total: nat) -> Seq<char> {
    match selected_block {
        Some(d) => " Output ("@ + decimal(d as nat + 1) + seq!['/'] + decimal(total)
            + ") [y: copy] "@,
        None => " Output "@,
    }
}

/// The title of the output pane.
pub fn output_title(app: &App) -> (r: String)
    ensures
        r@ == output_title_text(app.selected_block_index(), app.blocks.len() as nat),
{
    match app.get_selected_block_index() {
        Some(d) => {
            let mut t = owned(" Output (");
            push_decimal(&mut t, d + 1);
            push_char(&mut t, '/');
            push_decimal(&mut t, app.blocks.len());
            push_str(&mut t, ") [y: copy] ");
            proof {
                assert(t@ =~= output_title_text(app.selected_block_index(), app.blocks.len() as nat));
            }
            t
        },
        None => owned(" Output "),
    }
}

/// What the output pane shows.
#[derive(Debug, PartialEq, Eq, Structural)]
pub enum PaneContent {
    /// The output of the block with this index, its colours kept.
    Output(usize),
    /// The words "No selection".
    NoSelection,
    /// A hint to select a command.
    Hint,
}

/// What the output pane shows: the output of the selected block, "No
/// selection" when the selected row leads to no block, and a hint when no row
/// is selected.
pub fn output_content(app: &App) -> (c: PaneContent)
    ensures
        c == match app.selected_block_index() {
            Some(d) => PaneContent::Output(d),
            None => if app.selected is Some {
                PaneContent::NoSelection
            } else {
                PaneContent::Hint
            },
        },
{
    match app.get_selected_block_index() {
        Some(d) => PaneContent::Output(d),
        None => if app.selected.is_some() {
            PaneContent::NoSelection
        } else {
            PaneContent::Hint
        },
    }
}

/// Whether every row of the list leads to a block whose command the list can
/// show.
pub open spec fn rows_showable(app: &App) -> bool {
    forall|k: int|
        0 <= k < app.filtered_indices.len() ==> #[trigger] app.filtered_indices@[k] < app.blocks.len()
            && command_cut_ok(app.blocks@[app.filtered_indices@[k] as int].clean_command@)
}

/// The style of a command character that the search query matched.
#[verifier::allow_in_spec]
pub fn match_highlight() -> Style
    returns
        (Style { fg: Some(Color::Yellow) }),
{
    Style { fg: Some(Color::Yellow) }
}

/// Whether the list cuts the command short.
pub open spec fn is_cut(cmd: Seq<char>) -> bool {
    encode_utf8(cmd).len() > max_command_bytes()
}

/// The characters of the command that the list shows: all of them, or those
/// in its first 39 bytes when it is cut short.
pub open spec fn shown_chars(cmd: Seq<char>) -> Seq<char> {
    if is_cut(cmd) {
        decode_utf8(encode_utf8(cmd).subrange(0, 39))
    } else {
        cmd
    }
}

/// The span of one shown command character: highlighted or plain.
pub open spec fn char_span(c: char, highlighted: bool) -> SpanView {
    (seq![c], if highlighted {
        match_highlight()
    } else {
        plain()
    })
}

/// The spans of a list row showing block `d` with command `cmd`: the block's
/// number from 1 (right aligned in three columns) and a space, then each shown
/// character of the command on its own, highlighted exactly when its position
/// is among `marks`, then an ellipsis when the command is cut short.
pub open spec fn row_spans(d: nat, cmd: Seq<char>, marks: Seq<usize>) -> Seq<SpanView> {
    seq![(padded_decimal(d + 1, 3) + seq![' '], plain())] + Seq::new(
        shown_chars(cmd).len(),
        |j: int| char_span(shown_chars(cmd)[j], marks.contains(j as usize)),
    ) + if is_cut(cmd) {
        seq![(seq!['\u{2026}'], plain())]
    } else {
        Seq::<SpanView>::empty()
    }
}

/// The positions of a command's characters that the query matched: those the
/// matcher reports for a non-empty query that matches the command, and none
/// otherwise (also when the block is listed because its output matched).
pub open spec fn highlight_marks(cmd: Seq<char>, query: Seq<char>) -> Seq<usize> {
    if query.len() > 0 && skim_match_positions(cmd, query) is Some {
        skim_match_positions(cmd, query)->0
    } else {
        Seq::empty()
    }
}

/// The text of a sequence of spans.
pub open spec fn spans_text(spans: Seq<SpanView>) -> Seq<char>
    decreases spans.len(),
{
    if spans.len() == 0 {
        Seq::empty()
    } else {
        spans_text(spans.drop_last()) + spans.last().0
    }
}

proof fn lemma_spans_text_concat(a: Seq<SpanView>, b: Seq<SpanView>)
    ensures
        spans_text(a + b) == spans_text(a) + spans_text(b),
    decreases b.len(),
{
    if b.len() == 0 {
        assert(a + b =~= a);
    } else {
        assert((a + b).drop_last() =~= a + b.drop_last());
        lemma_spans_text_concat(a, b.drop_last());
        assert(spans_text(a + b) =~= spans_text(a) + spans_text(b));
    }
}

proof fn lemma_char_spans_text(cs: Seq<char>, marks: Seq<usize>)
    ensures
        spans_text(Seq::new(cs.len(), |j: int| char_span(cs[j], marks.contains(j as usize)))) == cs,
    decreases cs.len(),
{
    let f = |j: int| char_span(cs[j], marks.contains(j as usize));
    if cs.len() > 0 {
        let all = Seq::new(cs.len(), f);
        let front = cs.drop_last();
        lemma_char_spans_text(front, marks);
        assert(all.drop_last() =~= Seq::new(front.len(), |j: int| char_span(front[j], marks.contains(j as usize))));
        assert(spans_text(all) =~= cs);
    }
}

/// A row reads as its number, a space and the command as the list shows it:
/// the highlighting only styles the characters.
pub proof fn lemma_row_text(d: nat, cmd: Seq<char>, marks: Seq<usize>)
    ensures
        spans_text(row_spans(d, cmd, marks)) == padded_decimal(d + 1, 3) + seq![' ']
            + displayed_command(cmd),
{
    let head = seq![(padded_decimal(d + 1, 3) + seq![' '], plain())];
    let chars = Seq::new(
        shown_chars(cmd).len(),
        |j: int| char_span(shown_chars(cmd)[j], marks.contains(j as usize)),
    );
    let tail = if is_cut(cmd) {
        seq![(seq!['\u{2026}'], plain())]
    } else {
        Seq::<SpanView>::empty()
    };
    lemma_spans_text_concat(head + chars, tail);
    lemma_spans_text_concat(head, chars);
    lemma_char_spans_text(shown_chars(cmd), marks);
    assert(head.drop_last() =~= Seq::<SpanView>::empty());
    assert(spans_text(Seq::<SpanView>::empty()) == Seq::<char>::empty());
    assert(spans_text(head) == spans_text(head.drop_last()) + head.last().0);
    assert(spans_text(head) =~= padded_decimal(d + 1, 3) + seq![' ']);
    if is_cut(cmd) {
        assert(tail.drop_last() =~= Seq::<SpanView>::empty());
        assert(spans_text(tail) =~= seq!['\u{2026}']);
    } else {
        assert(spans_text(tail) =~= Seq::<char>::empty());
    }
    assert(spans_text(row_spans(d, cmd, marks)) =~= padded_decimal(d + 1, 3) + seq![' ']
        + displayed_command(cmd));
}

/// The list shows the first characters of the command, so the highlighted
/// character at a position of the row is the command's character there.
pub proof fn lemma_shown_is_prefix(cmd: Seq<char>)
    requires
        command_cut_ok(cmd),
    ensures
        shown_chars(cmd).len() <= cmd.len(),
        shown_chars(cmd) == cmd.take(shown_chars(cmd).len() as int),
{
    if is_cut(cmd) {
        let b = encode_utf8(cmd);
        encode_utf8_valid_utf8(cmd);
        decode_utf8_split(b, 39);
        let rest = decode_utf8(b.subrange(39, b.len() as int));
        assert(cmd == shown_chars(cmd) + rest);
        assert(shown_chars(cmd) =~= cmd.take(shown_chars(cmd).len() as int));
    } else {
        assert(cmd.take(cmd.len() as int) =~= cmd);
    }
}

/// For every non-empty query, the marks are exactly the positions the matcher
/// reports for the command (none when it does not match).
pub proof fn lemma_marks_are_reported_positions(cmd: Seq<char>, query: Seq<char>)
    requires
        query.len() > 0,
    ensures
        skim_match_positions(cmd, query) matches Some(p) ==> highlight_marks(cmd, query) == p,
        skim_match_positions(cmd, query) is None ==> highlight_marks(cmd, query).len() == 0,
{
}

/// With a non-empty query, each shown character of a row is the command's
/// character at that position, drawn in the highlight style exactly when the
/// matcher reported that position for the query, and plainly otherwise.
pub proof fn lemma_row_highlights(d: nat, cmd: Seq<char>, query: Seq<char>, j: int)
    requires
        command_cut_ok(cmd),
        query.len() > 0,
        0 <= j < shown_chars(cmd).len(),
    ensures
        ({
            let row = row_spans(d, cmd, highlight_marks(cmd, query));
            let reported = skim_match_positions(cmd, query) matches Some(p) && p.contains(j as usize);
            &&& j < cmd.len()
            &&& row[j + 1].0 == seq![cmd[j]]
            &&& reported ==> row[j + 1].1 == match_highlight()
            &&& !reported ==> row[j + 1].1 == plain()
        }),
{
    lemma_shown_is_prefix(cmd);
    let row = row_spans(d, cmd, highlight_marks(cmd, query));
    let head = seq![(padded_decimal(d + 1, 3) + seq![' '], plain())];
    let marks = highlight_marks(cmd, query);
    let chars = Seq::new(
        shown_chars(cmd).len(),
        |k: int| char_span(shown_chars(cmd)[k], marks.contains(k as usize)),
    );
    assert(row[j + 1] == chars[j]);
    assert(shown_chars(cmd)[j] == cmd[j]);
}

/// Whether `v` holds `x`.
fn contains_index(v: &Vec<usize>, x: usize) -> (r: bool)
    ensures
        r == v@.contains(x),
{
    let mut i: usize = 0;
    while i < v.len()
        invariant
            i <= v.len(),
            forall|j: int| 0 <= j < i ==> v@[j] != x,
        decreases v.len() - i,
    {
        if v[i] == x {
            return true;
        }
        i += 1;
    }
    false
}

/// The row of the command list showing block `d` with command `cmd`, the
/// characters at `marks` highlighted.
fn command_line(d: usize, cmd: &str, marks: &Vec<usize>) -> (line: Line)
    requires
        d < usize::MAX,
        command_cut_ok(cmd@),
    ensures
        line@ == row_spans(d as nat, cmd@, marks@),
{
    let mut spans: Vec<Span> = Vec::new();
    let mut number = String::new();
    push_padded_decimal(&mut number, d + 1, 3);
    push_char(&mut number, ' ');
    assert(number@ =~= padded_decimal(d as nat + 1, 3) + seq![' ']);
    push_span(&mut spans, Span::raw(number));
    let byte_len = cmd.as_bytes().len();
    proof {
        assert(cmd.spec_bytes() == encode_utf8(cmd@));
    }
    // Truncate long commands
    let cut = byte_len > 40;
    let shown = if cut {
        let (head, _) = cmd.split_at(39);
        proof {
            assert(head.spec_bytes() == encode_utf8(head@));
            assert(encode_utf8(head@) =~= encode_utf8(cmd@).subrange(0, 39));
        }
        head
    } else {
        cmd
    };
    let cs = chars_of(shown);
    assert(cs@ == shown_chars(cmd@));
    let ghost head_spans = seq![(padded_decimal(d as nat + 1, 3) + seq![' '], plain())];
    proof {
        assert(spans@.map_values(|x: Span| x@) =~= head_spans + Seq::new(
            0 as nat,
            |k: int| char_span(cs@[k], marks@.contains(k as usize)),
        ));
    }
    let mut j: usize = 0;
    while j < cs.len()
        invariant
            j <= cs.len(),
            cs@ == shown_chars(cmd@),
            spans@.map_values(|x: Span| x@) == head_spans + Seq::new(
                j as nat,
                |k: int| char_span(cs@[k], marks@.contains(k as usize)),
            ),
        decreases cs.len() - j,
    {
        let highlighted = contains_index(marks, j);
        let mut t = String::new();
        push_char(&mut t, cs[j]);
        let style = if highlighted {
            match_highlight()
        } else {
            plain()
        };
        push_span(&mut spans, Span::styled(t, style));
        proof {
            assert(spans@.map_values(|x: Span| x@) =~= head_spans + Seq::new(
                (j + 1) as nat,
                |k: int| char_span(cs@[k], marks@.contains(k as usize)),
            ));
        }
        j += 1;
    }
    if cut {
        let mut e = String::new();
        push_char(&mut e, '\u{2026}');
        push_span(&mut spans, Span::raw(e));
    }
    proof {
        assert(spans@.map_values(|x: Span| x@) =~= row_spans(d as nat, cmd@, marks@));
    }
    Line::from_spans(spans)
}

/// The rows of the command list: one per listed block, in list order, each
/// showing the block's number and command, with the characters that the search
/// query matched in the command highlighted.
pub fn command_list_lines(app: &App) -> (lines: Vec<Line>)
    requires
        rows_showable(app),
    ensures
        lines.len() == app.filtered_indices.len(),
        forall|k: int|
            0 <= k < lines.len() ==> (#[trigger] lines@[k])@ == row_spans(
                app.filtered_indices@[k] as nat,
                app.blocks@[app.filtered_indices@[k] as int].clean_command@,
                highlight_marks(
                    app.blocks@[app.filtered_indices@[k] as int].clean_command@,
                    app.search_query@,
                ),
            ),
{
    let mut lines: Vec<Line> = Vec::new();
    let n = app.filtered_indices.len();
    let searching = !app.search_query.as_str().is_empty();
    let mut k: usize = 0;
    while k < n
        invariant
            n == app.filtered_indices.len(),
            k <= n,
            rows_showable(app),
            searching == (app.search_query@.len() > 0),
            lines.len() == k,
            forall|i: int|
                0 <= i < k ==> (#[trigger] lines@[i])@ == row_spans(
                    app.filtered_indices@[i] as nat,
                    app.blocks@[app.filtered_indices@[i] as int].clean_command@,
                    highlight_marks(
                        app.blocks@[app.filtered_indices@[i] as int].clean_command@,
                        app.search_query@,
                    ),
                ),
        decreases n - k,
    {
        let d = app.filtered_indices[k];
        assert(d < app.blocks.len());
        let cmd = app.blocks[d].clean_command.as_str();
        let marks = if searching {
            match skim_fuzzy_positions(cmd, app.search_query.as_str()) {
                Some(p) => p,
                None => Vec::new(),
            }
        } else {
            Vec::new()
        };
        assert(marks@ == highlight_marks(cmd@, app.search_query@));
        lines.push(command_line(d, cmd, &marks));
        k += 1;
    }
    lines
}

} // verus!
