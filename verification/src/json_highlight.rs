//! JSON syntax highlighting: a JSON value laid out as indented, coloured lines.

use vstd::prelude::*;

use crate::styled::{lines_view, plain, push_span, Line, Span, SpanView, Text};
use crate::text::{owned, push_char, push_str, spaces, spaces_string};

pub mod style;

verus! {

/// A JSON value.
pub enum JsonValue {
    Null,
    Bool(bool),
    /// A number, as its JSON text.
    Number(String),
    String(String),
    Array(Vec<JsonValue>),
    /// The members of an object, in order.
    Object(Vec<(String, JsonValue)>),
}

/// The indentation of a line at `level` with `size` spaces per level.
pub open spec fn indentation(level: nat, size: nat) -> Seq<char> {
    spaces(level * size)
}

/// How one character of a string value is written between the quotes.
pub open spec fn json_escape_char(c: char) -> Seq<char> {
    if c == '\\' {
        seq!['\\', '\\']
    } else if c == '"' {
        seq!['\\', '"']
    } else {
        seq![c]
    }
}

/// A string value's text with backslashes and double quotes escaped.
pub open spec fn json_escaped(s: Seq<char>) -> Seq<char>
    decreases s.len(),
{
    if s.len() == 0 {
        Seq::empty()
    } else {
        json_escaped(s.drop_last()) + json_escape_char(s.last())
    }
}

/// `s` between double quotes.
pub open spec fn quoted(s: Seq<char>) -> Seq<char> {
    seq!['"'] + s + seq!['"']
}

/// `true` or `false`.
pub open spec fn bool_text(b: bool) -> Seq<char> {
    if b {
        "true"@
    } else {
        "false"@
    }
}

/// The span that shows a null, boolean, number or string.
pub open spec fn scalar_span(v: JsonValue) -> SpanView {
    match v {
        JsonValue::Null => ("null"@, style::null()),
        JsonValue::Bool(b) => (bool_text(b), style::boolean()),
        JsonValue::Number(n) => (n@, style::number()),
        JsonValue::String(s) => (quoted(json_escaped(s@)), style::string()),
        _ => (Seq::empty(), plain()),
    }
}

/// A comma span.
pub open spec fn comma_span() -> SpanView {
    (","@, style::punctuation())
}

/// `ls` with a comma at the end of its last line, when `comma` holds.
pub open spec fn with_comma(ls: Seq<Seq<SpanView>>, comma: bool) -> Seq<Seq<SpanView>> {
    if comma && ls.len() > 0 {
        ls.update(ls.len() - 1, ls.last().push(comma_span()))
    } else {
        ls
    }
}

/// The lines that show `v` at indentation `level`.
pub open spec fn rendered(v: JsonValue, level: nat, size: nat) -> Seq<Seq<SpanView>>
    decreases v, 0int,
{
    let ind = (indentation(level, size), plain());
    match v {
        JsonValue::Array(arr) => if arr.len() == 0 {
            seq![seq![ind, ("[]"@, style::bracket())]]
        } else {
            seq![seq![ind, ("["@, style::bracket())]] + rendered_items(
                arr@,
                arr@.len() as int,
                level + 1,
                size,
            ) + seq![seq![ind, ("]"@, style::bracket())]]
        },
        JsonValue::Object(obj) => if obj.len() == 0 {
            seq![seq![ind, ("{}"@, style::bracket())]]
        } else {
            seq![seq![ind, ("{"@, style::bracket())]] + rendered_members(
                obj@,
                obj@.len() as int,
                level + 1,
                size,
            ) + seq![seq![ind, ("}"@, style::bracket())]]
        },
        _ => seq![seq![ind, scalar_span(v)]],
    }
}

/// The lines that show the first `k` items of the array `items`, each but the
/// array's last followed by a comma.
pub open spec fn rendered_items(items: Seq<JsonValue>, k: int, level: nat, size: nat) -> Seq<
    Seq<SpanView>,
>
    decreases items, k,
{
    if k <= 0 || k > items.len() {
        Seq::empty()
    } else {
        rendered_items(items, k - 1, level, size) + with_comma(
            rendered(items[k - 1], level, size),
            k - 1 < items.len() - 1,
        )
    }
}

/// The lines that show the first `k` members of the object `members`, each
/// but the object's last followed by a comma.
pub open spec fn rendered_members(
    members: Seq<(String, JsonValue)>,
    k: int,
    level: nat,
    size: nat,
) -> Seq<Seq<SpanView>>
    decreases members, k,
{
    if k <= 0 || k > members.len() {
        Seq::empty()
    } else {
        rendered_members(members, k - 1, level, size) + rendered_member(
            members[k - 1].0@,
            members[k - 1].1,
            level,
            size,
            k - 1 < members.len() - 1,
        )
    }
}

/// The lines that show the member `key: v` of an object at indentation
/// `level`, followed by a comma when `comma` holds.
pub open spec fn rendered_member(key: Seq<char>, v: JsonValue, level: nat, size: nat, comma: bool) -> Seq<
    Seq<SpanView>,
>
    decreases v, 1int,
{
    let ind = (indentation(level, size), plain());
    let head = seq![ind, (quoted(key), style::key()), (": "@, style::punctuation())];
    let tail = if comma {
        seq![comma_span()]
    } else {
        Seq::empty()
    };
    match v {
        JsonValue::Array(arr) => if arr.len() == 0 {
            seq![head.push(("[]"@, style::bracket())) + tail]
        } else {
            seq![head.push(("["@, style::bracket()))] + rendered_items(
                arr@,
                arr@.len() as int,
                level + 1,
                size,
            ) + seq![seq![ind, ("]"@, style::bracket())] + tail]
        },
        JsonValue::Object(obj) => if obj.len() == 0 {
            seq![head.push(("{}"@, style::bracket())) + tail]
        } else {
            seq![head.push(("{"@, style::bracket()))] + rendered_members(
                obj@,
                obj@.len() as int,
                level + 1,
                size,
            ) + seq![seq![ind, ("}"@, style::bracket())] + tail]
        },
        _ => seq![head.push(scalar_span(v)) + tail],
    }
}

/// How many levels deeper than `v` its innermost items are laid out.
pub open spec fn json_depth(v: JsonValue) -> nat
    decreases v, 0int,
{
    match v {
        JsonValue::Array(arr) => if arr.len() == 0 {
            0
        } else {
            1 + items_depth(arr@, arr@.len() as int)
        },
        JsonValue::Object(obj) => if obj.len() == 0 {
            0
        } else {
            1 + members_depth(obj@, obj@.len() as int)
        },
        _ => 0,
    }
}

/// The greatest depth among the first `k` items.
pub open spec fn items_depth(items: Seq<JsonValue>, k: int) -> nat
    decreases items, k,
{
    if k <= 0 || k > items.len() {
        0
    } else {
        let d = json_depth(items[k - 1]);
        let rest = items_depth(items, k - 1);
        if d > rest {
            d
        } else {
            rest
        }
    }
}

/// The greatest depth among the values of the first `k` members.
pub open spec fn members_depth(members: Seq<(String, JsonValue)>, k: int) -> nat
    decreases members, k,
{
    if k <= 0 || k > members.len() {
        0
    } else {
        let d = json_depth(members[k - 1].1);
        let rest = members_depth(members, k - 1);
        if d > rest {
            d
        } else {
            rest
        }
    }
}

/// Whether a line starts with its indentation: a span of spaces without a
/// style of its own.
pub open spec fn line_indented(l: Seq<SpanView>) -> bool {
    &&& l.len() > 0
    &&& l[0].1 == plain()
    &&& forall|j: int| 0 <= j < l[0].0.len() ==> #[trigger] l[0].0[j] == ' '
}

/// Whether every line of `ls` starts with its indentation.
pub open spec fn all_indented(ls: Seq<Seq<SpanView>>) -> bool {
    forall|i: int| 0 <= i < ls.len() ==> line_indented(#[trigger] ls[i])
}

proof fn lemma_indented_concat(a: Seq<Seq<SpanView>>, b: Seq<Seq<SpanView>>)
    requires
        all_indented(a),
        all_indented(b),
    ensures
        all_indented(a + b),
{
    assert forall|i: int| 0 <= i < (a + b).len() implies line_indented(#[trigger] (a + b)[i]) by {
        if i < a.len() {
            assert((a + b)[i] == a[i]);
        } else {
            assert((a + b)[i] == b[i - a.len()]);
        }
    }
}

proof fn lemma_indented_with_comma(ls: Seq<Seq<SpanView>>, comma: bool)
    requires
        all_indented(ls),
    ensures
        all_indented(with_comma(ls, comma)),
{
    if comma && ls.len() > 0 {
        let w = with_comma(ls, comma);
        assert forall|i: int| 0 <= i < w.len() implies line_indented(#[trigger] w[i]) by {
            if i == ls.len() - 1 {
                assert(line_indented(ls[i]));
                assert(w[i] == ls[i].push(comma_span()));
                assert(w[i][0] == ls[i][0]);
            } else {
                assert(w[i] == ls[i]);
            }
        }
    }
}

proof fn lemma_indentation_line(level: nat, size: nat, rest: Seq<SpanView>)
    ensures
        line_indented(seq![(indentation(level, size), plain())] + rest),
{
    let l = seq![(indentation(level, size), plain())] + rest;
    assert(l[0] == (indentation(level, size), plain()));
}

/// Every line of a rendered value starts with its indentation.
pub proof fn lemma_rendered_indented(v: JsonValue, level: nat, size: nat)
    ensures
        all_indented(rendered(v, level, size)),
    decreases v, 0int,
{
    let ind = (indentation(level, size), plain());
    match v {
        JsonValue::Array(arr) => {
            if arr.len() == 0 {
                lemma_indentation_line(level, size, seq![("[]"@, style::bracket())]);
                assert(seq![ind, ("[]"@, style::bracket())] =~= seq![ind] + seq![("[]"@, style::bracket())]);
            } else {
                lemma_indentation_line(level, size, seq![("["@, style::bracket())]);
                lemma_indentation_line(level, size, seq![("]"@, style::bracket())]);
                assert(seq![ind, ("["@, style::bracket())] =~= seq![ind] + seq![("["@, style::bracket())]);
                assert(seq![ind, ("]"@, style::bracket())] =~= seq![ind] + seq![("]"@, style::bracket())]);
                lemma_items_indented(arr@, arr@.len() as int, level + 1, size);
                lemma_indented_concat(
                    seq![seq![ind, ("["@, style::bracket())]],
                    rendered_items(arr@, arr@.len() as int, level + 1, size),
                );
                lemma_indented_concat(
                    seq![seq![ind, ("["@, style::bracket())]] + rendered_items(
                        arr@,
                        arr@.len() as int,
                        level + 1,
                        size,
                    ),
                    seq![seq![ind, ("]"@, style::bracket())]],
                );
            }
        },
        JsonValue::Object(obj) => {
            if obj.len() == 0 {
                lemma_indentation_line(level, size, seq![("{}"@, style::bracket())]);
                assert(seq![ind, ("{}"@, style::bracket())] =~= seq![ind] + seq![("{}"@, style::bracket())]);
            } else {
                lemma_indentation_line(level, size, seq![("{"@, style::bracket())]);
                lemma_indentation_line(level, size, seq![("}"@, style::bracket())]);
                assert(seq![ind, ("{"@, style::bracket())] =~= seq![ind] + seq![("{"@, style::bracket())]);
                assert(seq![ind, ("}"@, style::bracket())] =~= seq![ind] + seq![("}"@, style::bracket())]);
                lemma_members_indented(obj@, obj@.len() as int, level + 1, size);
                lemma_indented_concat(
                    seq![seq![ind, ("{"@, style::bracket())]],
                    rendered_members(obj@, obj@.len() as int, level + 1, size),
                );
                lemma_indented_concat(
                    seq![seq![ind, ("{"@, style::bracket())]] + rendered_members(
                        obj@,
                        obj@.len() as int,
                        level + 1,
                        size,
                    ),
                    seq![seq![ind, ("}"@, style::bracket())]],
                );
            }
        },
        _ => {
            lemma_indentation_line(level, size, seq![scalar_span(v)]);
            assert(seq![ind, scalar_span(v)] =~= seq![ind] + seq![scalar_span(v)]);
        },
    }
}

/// Every line of rendered array items starts with its indentation.
pub proof fn lemma_items_indented(items: Seq<JsonValue>, k: int, level: nat, size: nat)
    ensures
        all_indented(rendered_items(items, k, level, size)),
    decreases items, k,
{
    if k > 0 && k <= items.len() {
        lemma_items_indented(items, k - 1, level, size);
        lemma_rendered_indented(items[k - 1], level, size);
        lemma_indented_with_comma(rendered(items[k - 1], level, size), k - 1 < items.len() - 1);
        lemma_indented_concat(
            rendered_items(items, k - 1, level, size),
            with_comma(rendered(items[k - 1], level, size), k - 1 < items.len() - 1),
        );
    }
}

/// Every line of rendered object members starts with its indentation.
pub proof fn lemma_members_indented(
    members: Seq<(String, JsonValue)>,
    k: int,
    level: nat,
    size: nat,
)
    ensures
        all_indented(rendered_members(members, k, level, size)),
    decreases members, k,
{
    if k > 0 && k <= members.len() {
        lemma_members_indented(members, k - 1, level, size);
        lemma_member_indented(members[k - 1].0@, members[k - 1].1, level, size, k - 1 < members.len() - 1);
        lemma_indented_concat(
            rendered_members(members, k - 1, level, size),
            rendered_member(members[k - 1].0@, members[k - 1].1, level, size, k - 1 < members.len() - 1),
        );
    }
}

/// Every line of a rendered object member starts with its indentation.
pub proof fn lemma_member_indented(key: Seq<char>, v: JsonValue, level: nat, size: nat, comma: bool)
    ensures
        all_indented(rendered_member(key, v, level, size, comma)),
    decreases v, 1int,
{
    let ind = (indentation(level, size), plain());
    let head = seq![ind, (quoted(key), style::key()), (": "@, style::punctuation())];
    let tail = if comma {
        seq![comma_span()]
    } else {
        Seq::<SpanView>::empty()
    };
    let r = rendered_member(key, v, level, size, comma);
    match v {
        JsonValue::Array(arr) => {
            if arr.len() > 0 {
                lemma_items_indented(arr@, arr@.len() as int, level + 1, size);
                let mid = rendered_items(arr@, arr@.len() as int, level + 1, size);
                assert forall|i: int| 0 <= i < r.len() implies line_indented(#[trigger] r[i]) by {
                    if i == 0 {
                        assert(r[0][0] == ind);
                    } else if i <= mid.len() {
                        assert(r[i] == mid[i - 1]);
                    } else {
                        assert(r[i][0] == ind);
                    }
                }
            } else {
                assert(r[0][0] == ind);
            }
        },
        JsonValue::Object(obj) => {
            if obj.len() > 0 {
                lemma_members_indented(obj@, obj@.len() as int, level + 1, size);
                let mid = rendered_members(obj@, obj@.len() as int, level + 1, size);
                assert forall|i: int| 0 <= i < r.len() implies line_indented(#[trigger] r[i]) by {
                    if i == 0 {
                        assert(r[0][0] == ind);
                    } else if i <= mid.len() {
                        assert(r[i] == mid[i - 1]);
                    } else {
                        assert(r[i][0] == ind);
                    }
                }
            } else {
                assert(r[0][0] == ind);
            }
        },
        _ => {
            assert(r[0][0] == ind);
        },
    }
}

/// Rendering a value always gives at least one line.
pub proof fn lemma_rendered_not_empty(v: JsonValue, level: nat, size: nat)
    ensures
        rendered(v, level, size).len() > 0,
{
}

/// An array item is its value's lines, with a comma appended to the last line
/// (and only there) when it is not the array's last item.
pub proof fn lemma_item_comma(v: JsonValue, level: nat, size: nat, comma: bool)
    ensures
        ({
            let r = rendered(v, level, size);
            let a = with_comma(r, comma);
            &&& a.len() == r.len()
            &&& forall|i: int| 0 <= i < r.len() - 1 ==> #[trigger] a[i] == r[i]
            &&& a.last() == (if comma {
                r.last().push(comma_span())
            } else {
                r.last()
            })
        }),
{
    lemma_rendered_not_empty(v, level, size);
}

/// The last span of a rendered value is never a comma: it is the value itself
/// or a closing bracket.
pub proof fn lemma_rendered_ends_without_comma(v: JsonValue, level: nat, size: nat)
    ensures
        rendered(v, level, size).last().len() > 0,
        rendered(v, level, size).last().last() != comma_span(),
{
    let r = rendered(v, level, size);
    match v {
        JsonValue::Array(arr) => {
            if arr.len() > 0 {
                assert(r.last() == seq![(indentation(level, size), plain()), ("]"@, style::bracket())]);
            }
        },
        JsonValue::Object(obj) => {
            if obj.len() > 0 {
                assert(r.last() == seq![(indentation(level, size), plain()), ("}"@, style::bracket())]);
            }
        },
        _ => {},
    }
}

/// In an array, the last line of every item but the last ends with a comma,
/// whatever kind of value the item is: the lines of the first `k` items end
/// with a comma for every `k` short of the item count, and with no comma for
/// the whole array.
pub proof fn lemma_items_commas(items: Seq<JsonValue>, k: int, level: nat, size: nat)
    requires
        0 < k <= items.len(),
    ensures
        rendered_items(items, k, level, size).len() > 0,
        rendered_items(items, k, level, size).last().len() > 0,
        k < items.len() ==> rendered_items(items, k, level, size).last().last() == comma_span(),
        k == items.len() ==> rendered_items(items, k, level, size).last().last() != comma_span(),
{
    let r = rendered(items[k - 1], level, size);
    lemma_rendered_ends_without_comma(items[k - 1], level, size);
    let w = with_comma(r, k - 1 < items.len() - 1);
    assert(rendered_items(items, k, level, size) == rendered_items(items, k - 1, level, size) + w);
    assert((rendered_items(items, k - 1, level, size) + w).last() == w.last());
    if k < items.len() {
        assert(w.last() == r.last().push(comma_span()));
    }
}

/// In an object, the last line of every member but the last ends with a
/// comma, whatever kind of value the member holds; the last member's does not.
pub proof fn lemma_members_commas(members: Seq<(String, JsonValue)>, k: int, level: nat, size: nat)
    requires
        0 < k <= members.len(),
    ensures
        rendered_members(members, k, level, size).len() > 0,
        rendered_members(members, k, level, size).last().len() > 0,
        k < members.len() ==> rendered_members(members, k, level, size).last().last() == comma_span(),
        k == members.len() ==> rendered_members(members, k, level, size).last().last() != comma_span(),
{
    let key = members[k - 1].0@;
    let v = members[k - 1].1;
    let comma = k - 1 < members.len() - 1;
    lemma_member_is_keyed_item(key, v, level, size, comma);
    lemma_rendered_ends_without_comma(v, level, size);
    let a = with_comma(rendered(v, level, size), comma);
    let m = rendered_member(key, v, level, size, comma);
    if a.len() == 1 {
        assert(a[0].len() > 0);
        assert(m[0].last() == a[0].last());
    } else {
        assert(m.last() == a.last());
    }
    if comma {
        assert(a.last() == rendered(v, level, size).last().push(comma_span()));
    }
    assert(rendered_members(members, k, level, size) == rendered_members(members, k - 1, level, size) + m);
    assert((rendered_members(members, k - 1, level, size) + m).last() == m.last());
}

/// An object member is laid out as the same value would be as an array item,
/// with the quoted key and a colon put after the indentation of its first line.
pub proof fn lemma_member_is_keyed_item(key: Seq<char>, v: JsonValue, level: nat, size: nat, comma: bool)
    ensures
        ({
            let a = with_comma(rendered(v, level, size), comma);
            let b = rendered_member(key, v, level, size, comma);
            &&& b.len() == a.len()
            &&& a.len() > 0
            &&& forall|i: int| 1 <= i < a.len() ==> #[trigger] b[i] == a[i]
            &&& b[0] == seq![a[0][0], (quoted(key), style::key()), (": "@, style::punctuation())]
                + a[0].subrange(1, a[0].len() as int)
        }),
{
    let ind = (indentation(level, size), plain());
    let r = rendered(v, level, size);
    let a = with_comma(r, comma);
    let b = rendered_member(key, v, level, size, comma);
    let head = seq![ind, (quoted(key), style::key()), (": "@, style::punctuation())];
    let tail = if comma {
        seq![comma_span()]
    } else {
        Seq::<SpanView>::empty()
    };
    match v {
        JsonValue::Array(arr) => {
            if arr.len() == 0 {
                assert(a[0] =~= seq![ind, ("[]"@, style::bracket())] + tail);
                assert(b[0] =~= seq![a[0][0], (quoted(key), style::key()), (": "@, style::punctuation())]
                    + a[0].subrange(1, a[0].len() as int));
            } else {
                let mid = rendered_items(arr@, arr@.len() as int, level + 1, size);
                assert(r.len() == mid.len() + 2);
                assert(a[0] == r[0]);
                assert(a.last() =~= seq![ind, ("]"@, style::bracket())] + tail);
                assert forall|i: int| 1 <= i < a.len() implies #[trigger] b[i] == a[i] by {
                    if i < a.len() - 1 {
                        assert(b[i] == mid[i - 1]);
                        assert(a[i] == r[i]);
                    }
                }
                assert(b[0] =~= seq![a[0][0], (quoted(key), style::key()), (": "@, style::punctuation())]
                    + a[0].subrange(1, a[0].len() as int));
            }
        },
        JsonValue::Object(obj) => {
            if obj.len() == 0 {
                assert(a[0] =~= seq![ind, ("{}"@, style::bracket())] + tail);
                assert(b[0] =~= seq![a[0][0], (quoted(key), style::key()), (": "@, style::punctuation())]
                    + a[0].subrange(1, a[0].len() as int));
            } else {
                let mid = rendered_members(obj@, obj@.len() as int, level + 1, size);
                assert(r.len() == mid.len() + 2);
                assert(a[0] == r[0]);
                assert(a.last() =~= seq![ind, ("}"@, style::bracket())] + tail);
                assert forall|i: int| 1 <= i < a.len() implies #[trigger] b[i] == a[i] by {
                    if i < a.len() - 1 {
                        assert(b[i] == mid[i - 1]);
                        assert(a[i] == r[i]);
                    }
                }
                assert(b[0] =~= seq![a[0][0], (quoted(key), style::key()), (": "@, style::punctuation())]
                    + a[0].subrange(1, a[0].len() as int));
            }
        },
        _ => {
            assert(a[0] =~= seq![ind, scalar_span(v)] + tail);
            assert(b[0] =~= seq![a[0][0], (quoted(key), style::key()), (": "@, style::punctuation())]
                + a[0].subrange(1, a[0].len() as int));
        },
    }
}

/// Each item lies at least one level less deep than the array holding it.
proof fn lemma_items_depth(items: Seq<JsonValue>, k: int, i: int)
    requires
        0 <= i < k <= items.len(),
    ensures
        json_depth(items[i]) <= items_depth(items, k),
    decreases k,
{
    if i < k - 1 {
        lemma_items_depth(items, k - 1, i);
    }
}

/// Each member value lies at least one level less deep than the object holding it.
proof fn lemma_members_depth(members: Seq<(String, JsonValue)>, k: int, i: int)
    requires
        0 <= i < k <= members.len(),
    ensures
        json_depth(members[i].1) <= members_depth(members, k),
    decreases k,
{
    if i < k - 1 {
        lemma_members_depth(members, k - 1, i);
    }
}

/// The indentation of a nested item still fits when that of its deepest part does.
proof fn lemma_nested_fits(level: nat, d_inner: nat, d_outer: nat, size: nat)
    requires
        d_inner + 1 <= d_outer,
        (level + d_outer) * size <= isize::MAX,
        level + d_outer <= usize::MAX,
    ensures
        (level + 1 + d_inner) * size <= isize::MAX,
        level + 1 + d_inner <= usize::MAX,
        level * size <= isize::MAX,
{
    vstd::arithmetic::mul::lemma_mul_inequality((level + 1 + d_inner) as int, (level + d_outer) as int, size as int);
    vstd::arithmetic::mul::lemma_mul_inequality(level as int, (level + d_outer) as int, size as int);
}

/// The indentation of a line fits when that of its deepest part does.
proof fn lemma_level_fits(level: nat, d: nat, size: nat)
    requires
        (level + d) * size <= isize::MAX,
    ensures
        level * size <= isize::MAX,
{
    vstd::arithmetic::mul::lemma_mul_inequality(level as int, (level + d) as int, size as int);
}

/// The depth of `value` (see `json_depth`), or `None` when it does not fit in
/// a `usize`.
fn depth_of(value: &JsonValue) -> (r: Option<usize>)
    ensures
        r matches Some(d) ==> d == json_depth(*value),
        r is None ==> json_depth(*value) > usize::MAX,
    decreases value,
{
    match value {
        JsonValue::Array(arr) => {
            if arr.len() == 0 {
                return Some(0);
            }
            let n = arr.len();
            let mut m: usize = 0;
            let mut i: usize = 0;
            while i < n
                invariant
                    n == arr.len(),
                    i <= n,
                    *value == JsonValue::Array(*arr),
                    m == items_depth(arr@, i as int),
                decreases n - i,
            {
                let item = &arr[i];
                proof {
                    assert(*item == arr@[i as int]);
                    assert(decreases_to!(*value => value->Array_0));
                    assert(decreases_to!(*arr => arr@));
                    assert(decreases_to!(arr@ => arr@[i as int]));
                }
                match depth_of(item) {
                    Some(d) => if d > m {
                        m = d;
                    },
                    None => {
                        proof {
                            lemma_items_depth(arr@, n as int, i as int);
                        }
                        return None;
                    },
                }
                i += 1;
            }
            if m == usize::MAX {
                None
            } else {
                Some(m + 1)
            }
        },
        JsonValue::Object(obj) => {
            if obj.len() == 0 {
                return Some(0);
            }
            let n = obj.len();
            let mut m: usize = 0;
            let mut i: usize = 0;
            while i < n
                invariant
                    n == obj.len(),
                    i <= n,
                    *value == JsonValue::Object(*obj),
                    m == members_depth(obj@, i as int),
                decreases n - i,
            {
                let member = &obj[i];
                proof {
                    assert(*member == obj@[i as int]);
                    assert(decreases_to!(*value => value->Object_0));
                    assert(decreases_to!(*obj => obj@));
                    assert(decreases_to!(obj@ => obj@[i as int]));
                    assert(decreases_to!(obj@[i as int] => obj@[i as int].1));
                }
                match depth_of(&member.1) {
                    Some(d) => if d > m {
                        m = d;
                    },
                    None => {
                        proof {
                            lemma_members_depth(obj@, n as int, i as int);
                        }
                        return None;
                    },
                }
                i += 1;
            }
            if m == usize::MAX {
                None
            } else {
                Some(m + 1)
            }
        },
        _ => Some(0),
    }
}

/// Whether the deepest indentation of `value` fits, so that `json_to_text` can
/// lay it out with `indent_size` spaces per level.
pub fn indent_fits(value: &JsonValue, indent_size: usize) -> (r: bool)
    ensures
        r == (json_depth(*value) <= usize::MAX && json_depth(*value) * indent_size <= isize::MAX),
{
    match depth_of(value) {
        Some(d) => match d.checked_mul(indent_size) {
            Some(w) => w <= isize::MAX as usize,
            None => false,
        },
        None => false,
    }
}

/// Appends a line made of `spans`.
fn push_line(lines: &mut Vec<Line>, spans: Vec<Span>)
    ensures
        lines_view(final(lines)@) == lines_view(old(lines)@).push(spans@.map_values(|s: Span| s@)),
{
    let line = Line::from_spans(spans);
    lines.push(line);
    proof {
        assert(lines_view(lines@) =~= lines_view(old(lines)@).push(line@));
    }
}

/// A fresh span list holding `a` and `b`.
fn two_spans(a: Span, b: Span) -> (r: Vec<Span>)
    ensures
        r@.map_values(|x: Span| x@) == seq![a@, b@],
{
    let mut r: Vec<Span> = Vec::new();
    push_span(&mut r, a);
    push_span(&mut r, b);
    proof {
        assert(r@.map_values(|x: Span| x@) =~= seq![a@, b@]);
    }
    r
}

/// The text of a string value between quotes, with backslashes and double
/// quotes escaped.
fn quoted_json_string(s: &str) -> (r: String)
    ensures
        r@ == quoted(json_escaped(s@)),
{
    let cs = crate::text::chars_of(s);
    let mut out = String::new();
    push_char(&mut out, '"');
    let mut i: usize = 0;
    while i < cs.len()
        invariant
            i <= cs.len(),
            cs@ == s@,
            out@ == seq!['"'] + json_escaped(cs@.take(i as int)),
        decreases cs.len() - i,
    {
        let c = cs[i];
        if c == '\\' {
            push_char(&mut out, '\\');
            push_char(&mut out, '\\');
        } else if c == '"' {
            push_char(&mut out, '\\');
            push_char(&mut out, '"');
        } else {
            push_char(&mut out, c);
        }
        proof {
            assert(cs@.take(i + 1).drop_last() =~= cs@.take(i as int));
            assert(out@ =~= seq!['"'] + json_escaped(cs@.take(i + 1)));
        }
        i += 1;
    }
    push_char(&mut out, '"');
    proof {
        assert(cs@.take(cs@.len() as int) =~= s@);
        assert(out@ =~= quoted(json_escaped(s@)));
    }
    out
}

/// `s` between double quotes, as it is.
fn quoted_key(s: &str) -> (r: String)
    ensures
        r@ == quoted(s@),
{
    let mut out = String::new();
    push_char(&mut out, '"');
    push_str(&mut out, s);
    push_char(&mut out, '"');
    proof {
        assert(out@ =~= quoted(s@));
    }
    out
}

/// The span that shows a null, boolean, number or string.
fn scalar(value: &JsonValue) -> (s: Span)
    requires
        !(value is Array) && !(value is Object),
    ensures
        s@ == scalar_span(*value),
{
    match value {
        JsonValue::Null => Span::styled(owned("null"), style::null()),
        JsonValue::Bool(b) => if *b {
            Span::styled(owned("true"), style::boolean())
        } else {
            Span::styled(owned("false"), style::boolean())
        },
        JsonValue::Number(n) => Span::styled(n.clone(), style::number()),
        JsonValue::String(s) => Span::styled(quoted_json_string(s.as_str()), style::string()),
        _ => Span::raw(String::new()),
    }
}

/// Convert a JSON value to syntax-highlighted Text
pub fn json_to_text(value: &JsonValue, indent_size: usize) -> (t: Text)
    requires
        json_depth(*value) * indent_size <= isize::MAX,
        json_depth(*value) <= usize::MAX,
    ensures
        t@ == rendered(*value, 0, indent_size as nat),
{
    let mut lines: Vec<Line> = Vec::new();
    render_value(value, 0, indent_size, &mut lines);
    proof {
        assert(lines_view(Seq::<Line>::empty()) =~= Seq::<Seq<SpanView>>::empty());
        assert(lines_view(lines@) =~= rendered(*value, 0, indent_size as nat));
    }
    Text::from_lines(lines)
}

/// Recursively render a JSON value with syntax highlighting
fn render_value(value: &JsonValue, indent_level: usize, indent_size: usize, lines: &mut Vec<Line>)
    requires
        (indent_level + json_depth(*value)) * indent_size <= isize::MAX,
        indent_level + json_depth(*value) <= usize::MAX,
    ensures
        lines_view(final(lines)@) == lines_view(old(lines)@) + rendered(
            *value,
            indent_level as nat,
            indent_size as nat,
        ),
    decreases value, 0int,
{
    proof {
        lemma_level_fits(indent_level as nat, json_depth(*value), indent_size as nat);
    }
    let indent = spaces_string(indent_level * indent_size);
    let ghost ind = (indentation(indent_level as nat, indent_size as nat), plain());
    let ghost start = lines_view(lines@);
    match value {
        JsonValue::Array(arr) => {
            if arr.len() == 0 {
                push_line(lines, two_spans(Span::raw(indent), Span::styled(owned("[]"), style::bracket())));
                proof {
                    assert(lines_view(lines@) =~= start + rendered(*value, indent_level as nat, indent_size as nat));
                }
                return;
            }
            push_line(lines, two_spans(Span::raw(indent.clone()), Span::styled(owned("["), style::bracket())));
            let n = arr.len();
            let mut i: usize = 0;
            while i < n
                invariant
                    n == arr.len(),
                    i <= n,
                    *value == JsonValue::Array(*arr),
                    (indent_level + json_depth(*value)) * indent_size <= isize::MAX,
                    indent_level + json_depth(*value) <= usize::MAX,
                    json_depth(*value) == 1 + items_depth(arr@, n as int),
                    lines_view(lines@) == start + seq![seq![ind, ("["@, style::bracket())]]
                        + rendered_items(arr@, i as int, (indent_level + 1) as nat, indent_size as nat),
                decreases n - i,
            {
                proof {
                    lemma_items_depth(arr@, n as int, i as int);
                    lemma_nested_fits(
                        indent_level as nat,
                        json_depth(arr@[i as int]),
                        json_depth(*value),
                        indent_size as nat,
                    );
                }
                render_item(&arr[i], indent_level + 1, indent_size, i < n - 1, lines);
                proof {
                    assert(rendered_items(arr@, i + 1, (indent_level + 1) as nat, indent_size as nat)
                        == rendered_items(arr@, i as int, (indent_level + 1) as nat, indent_size as nat)
                        + with_comma(
                        rendered(arr@[i as int], (indent_level + 1) as nat, indent_size as nat),
                        i < n - 1,
                    ));
                }
                i += 1;
            }
            push_line(lines, two_spans(Span::raw(indent), Span::styled(owned("]"), style::bracket())));
            proof {
                assert(lines_view(lines@) =~= start + rendered(*value, indent_level as nat, indent_size as nat));
            }
        },
        JsonValue::Object(obj) => {
            if obj.len() == 0 {
                push_line(lines, two_spans(Span::raw(indent), Span::styled(owned("{}"), style::bracket())));
                proof {
                    assert(lines_view(lines@) =~= start + rendered(*value, indent_level as nat, indent_size as nat));
                }
                return;
            }
            push_line(lines, two_spans(Span::raw(indent.clone()), Span::styled(owned("{"), style::bracket())));
            let n = obj.len();
            let mut i: usize = 0;
            while i < n
                invariant
                    n == obj.len(),
                    i <= n,
                    *value == JsonValue::Object(*obj),
                    (indent_level + json_depth(*value)) * indent_size <= isize::MAX,
                    indent_level + json_depth(*value) <= usize::MAX,
                    json_depth(*value) == 1 + members_depth(obj@, n as int),
                    lines_view(lines@) == start + seq![seq![ind, ("{"@, style::bracket())]]
                        + rendered_members(obj@, i as int, (indent_level + 1) as nat, indent_size as nat),
                decreases n - i,
            {
                proof {
                    lemma_members_depth(obj@, n as int, i as int);
                    lemma_nested_fits(
                        indent_level as nat,
                        json_depth(obj@[i as int].1),
                        json_depth(*value),
                        indent_size as nat,
                    );
                }
                render_key_value(
                    obj[i].0.as_str(),
                    &obj[i].1,
                    indent_level + 1,
                    indent_size,
                    i < n - 1,
                    lines,
                );
                i += 1;
            }
            push_line(lines, two_spans(Span::raw(indent), Span::styled(owned("}"), style::bracket())));
            proof {
                assert(lines_view(lines@) =~= start + rendered(*value, indent_level as nat, indent_size as nat));
            }
        },
        _ => {
            push_line(lines, two_spans(Span::raw(indent), scalar(value)));
            proof {
                assert(lines_view(lines@) =~= start + rendered(*value, indent_level as nat, indent_size as nat));
            }
        },
    }
}

/// Render an array item with proper comma handling
fn render_item(
    value: &JsonValue,
    indent_level: usize,
    indent_size: usize,
    trailing_comma: bool,
    lines: &mut Vec<Line>,
)
    requires
        (indent_level + json_depth(*value)) * indent_size <= isize::MAX,
        indent_level + json_depth(*value) <= usize::MAX,
    ensures
        lines_view(final(lines)@) == lines_view(old(lines)@) + with_comma(
            rendered(*value, indent_level as nat, indent_size as nat),
            trailing_comma,
        ),
    decreases value, 1int,
{
    let start_idx = lines.len();
    render_value(value, indent_level, indent_size, lines);
    let ghost r = rendered(*value, indent_level as nat, indent_size as nat);
    if trailing_comma && lines.len() > start_idx {
        let ghost before = lines@;
        match lines.pop() {
            Some(mut line) => {
                let ghost old_line = line@;
                push_span(&mut line.spans, Span::styled(owned(","), style::punctuation()));
                lines.push(line);
                proof {
                    let lb = lines_view(before);
                    assert(lb == lines_view(old(lines)@) + r);
                    assert(lb.last() == old_line);
                    assert(r.len() > 0);
                    assert(lines_view(lines@) =~= lb.update(lb.len() - 1, old_line.push(comma_span())));
                    assert(r.last() == old_line);
                    assert(lb.update(lb.len() - 1, old_line.push(comma_span())) =~= lines_view(
                        old(lines)@,
                    ) + with_comma(r, trailing_comma));
                }
            },
            None => {},
        }
    }
}

/// Render a key-value pair in an object
fn render_key_value(
    key: &str,
    value: &JsonValue,
    indent_level: usize,
    indent_size: usize,
    trailing_comma: bool,
    lines: &mut Vec<Line>,
)
    requires
        (indent_level + json_depth(*value)) * indent_size <= isize::MAX,
        indent_level + json_depth(*value) <= usize::MAX,
    ensures
        lines_view(final(lines)@) == lines_view(old(lines)@) + rendered_member(
            key@,
            *value,
            indent_level as nat,
            indent_size as nat,
            trailing_comma,
        ),
    decreases value, 1int,
{
    proof {
        lemma_level_fits(indent_level as nat, json_depth(*value), indent_size as nat);
    }
    let indent = spaces_string(indent_level * indent_size);
    let ghost ind = (indentation(indent_level as nat, indent_size as nat), plain());
    let ghost start = lines_view(lines@);
    let ghost head = seq![ind, (quoted(key@), style::key()), (": "@, style::punctuation())];
    let ghost tail = if trailing_comma {
        seq![comma_span()]
    } else {
        Seq::<SpanView>::empty()
    };
    let mut spans: Vec<Span> = Vec::new();
    push_span(&mut spans, Span::raw(indent.clone()));
    push_span(&mut spans, Span::styled(quoted_key(key), style::key()));
    push_span(&mut spans, Span::styled(owned(": "), style::punctuation()));
    proof {
        assert(spans@.map_values(|x: Span| x@) =~= head);
    }
    match value {
        JsonValue::Array(arr) => {
            if arr.len() == 0 {
                push_span(&mut spans, Span::styled(owned("[]"), style::bracket()));
                if trailing_comma {
                    push_span(&mut spans, Span::styled(owned(","), style::punctuation()));
                }
                proof {
                    assert(spans@.map_values(|x: Span| x@) =~= head.push(("[]"@, style::bracket()))
                        + tail);
                }
                push_line(lines, spans);
                proof {
                    assert(lines_view(lines@) =~= start + rendered_member(
                        key@,
                        *value,
                        indent_level as nat,
                        indent_size as nat,
                        trailing_comma,
                    ));
                }
                return;
            }
            push_span(&mut spans, Span::styled(owned("["), style::bracket()));
            push_line(lines, spans);
            let n = arr.len();
            let mut i: usize = 0;
            while i < n
                invariant
                    n == arr.len(),
                    i <= n,
                    *value == JsonValue::Array(*arr),
                    (indent_level + json_depth(*value)) * indent_size <= isize::MAX,
                    indent_level + json_depth(*value) <= usize::MAX,
                    json_depth(*value) == 1 + items_depth(arr@, n as int),
                    lines_view(lines@) == start + seq![head.push(("["@, style::bracket()))]
                        + rendered_items(arr@, i as int, (indent_level + 1) as nat, indent_size as nat),
                decreases n - i,
            {
                proof {
                    lemma_items_depth(arr@, n as int, i as int);
                    lemma_nested_fits(
                        indent_level as nat,
                        json_depth(arr@[i as int]),
                        json_depth(*value),
                        indent_size as nat,
                    );
                }
                render_item(&arr[i], indent_level + 1, indent_size, i < n - 1, lines);
                i += 1;
            }
            let mut closing = two_spans(Span::raw(indent), Span::styled(owned("]"), style::bracket()));
            if trailing_comma {
                push_span(&mut closing, Span::styled(owned(","), style::punctuation()));
            }
            proof {
                assert(closing@.map_values(|x: Span| x@) =~= seq![ind, ("]"@, style::bracket())] + tail);
            }
            push_line(lines, closing);
            proof {
                assert(lines_view(lines@) =~= start + rendered_member(
                    key@,
                    *value,
                    indent_level as nat,
                    indent_size as nat,
                    trailing_comma,
                ));
            }
        },
        JsonValue::Object(obj) => {
            if obj.len() == 0 {
                push_span(&mut spans, Span::styled(owned("{}"), style::bracket()));
                if trailing_comma {
                    push_span(&mut spans, Span::styled(owned(","), style::punctuation()));
                }
                proof {
                    assert(spans@.map_values(|x: Span| x@) =~= head.push(("{}"@, style::bracket()))
                        + tail);
                }
                push_line(lines, spans);
                proof {
                    assert(lines_view(lines@) =~= start + rendered_member(
                        key@,
                        *value,
                        indent_level as nat,
                        indent_size as nat,
                        trailing_comma,
                    ));
                }
                return;
            }
            push_span(&mut spans, Span::styled(owned("{"), style::bracket()));
            push_line(lines, spans);
            let n = obj.len();
            let mut i: usize = 0;
            while i < n
                invariant
                    n == obj.len(),
                    i <= n,
                    *value == JsonValue::Object(*obj),
                    (indent_level + json_depth(*value)) * indent_size <= isize::MAX,
                    indent_level + json_depth(*value) <= usize::MAX,
                    json_depth(*value) == 1 + members_depth(obj@, n as int),
                    lines_view(lines@) == start + seq![head.push(("{"@, style::bracket()))]
                        + rendered_members(obj@, i as int, (indent_level + 1) as nat, indent_size as nat),
                decreases n - i,
            {
                proof {
                    lemma_members_depth(obj@, n as int, i as int);
                    lemma_nested_fits(
                        indent_level as nat,
                        json_depth(obj@[i as int].1),
                        json_depth(*value),
                        indent_size as nat,
                    );
                }
                render_key_value(
                    obj[i].0.as_str(),
                    &obj[i].1,
                    indent_level + 1,
                    indent_size,
                    i < n - 1,
                    lines,
                );
                i += 1;
            }
            let mut closing = two_spans(Span::raw(indent), Span::styled(owned("}"), style::bracket()));
            if trailing_comma {
                push_span(&mut closing, Span::styled(owned(","), style::punctuation()));
            }
            proof {
                assert(closing@.map_values(|x: Span| x@) =~= seq![ind, ("}"@, style::bracket())] + tail);
            }
            push_line(lines, closing);
            proof {
                assert(lines_view(lines@) =~= start + rendered_member(
                    key@,
                    *value,
                    indent_level as nat,
                    indent_size as nat,
                    trailing_comma,
                ));
            }
        },
        _ => {
            // Primitives: key and value on same line
            push_span(&mut spans, scalar(value));
            if trailing_comma {
                push_span(&mut spans, Span::styled(owned(","), style::punctuation()));
            }
            proof {
                assert(spans@.map_values(|x: Span| x@) =~= head.push(scalar_span(*value)) + tail);
            }
            push_line(lines, spans);
            proof {
                assert(lines_view(lines@) =~= start + rendered_member(
                    key@,
                    *value,
                    indent_level as nat,
                    indent_size as nat,
                    trailing_comma,
                ));
            }
        },
    }
}

} // verus!
