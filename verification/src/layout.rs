//! What the pretty printer adds to the Scheme text of a tree: only line
//! breaks and indentation, and one more indentation per line when printed one
//! level deeper.
use vstd::prelude::*;

use crate::grammar::{
    next_depth, repeat_chars, spec_fmt, spec_fmt_children, spec_line_break, SpecTree,
};

verus! {

/// Every atom of `t` satisfies `p`.
pub open spec fn atoms_satisfy(t: SpecTree, p: spec_fn(Seq<char>) -> bool) -> bool
    decreases t,
{
    match t {
        SpecTree::Atom(a) => p(a),
        SpecTree::List(ch) => children_atoms_satisfy(ch, p),
    }
}

/// Every atom of the trees `ch` satisfies `p`.
pub open spec fn children_atoms_satisfy(ch: Seq<SpecTree>, p: spec_fn(Seq<char>) -> bool) -> bool
    decreases ch,
{
    ch.len() == 0 || (children_atoms_satisfy(ch.drop_last(), p) && atoms_satisfy(ch.last(), p))
}

/// A line break or a tab.
pub open spec fn is_layout(c: char) -> bool {
    c == '\n' || c == '\t'
}

/// No character of `s` is a line break or a tab.
pub open spec fn free_of_layout(s: Seq<char>) -> bool {
    forall|k: int| 0 <= k < s.len() ==> !#[trigger] is_layout(s[k])
}

/// Every character of `s` is a line break or a tab.
pub open spec fn only_layout(s: Seq<char>) -> bool {
    forall|k: int| 0 <= k < s.len() ==> #[trigger] is_layout(s[k])
}

/// `s` with its line breaks and tabs taken out.
pub open spec fn without_layout(s: Seq<char>) -> Seq<char>
    decreases s.len(),
{
    if s.len() == 0 {
        Seq::empty()
    } else if is_layout(s.last()) {
        without_layout(s.drop_last())
    } else {
        without_layout(s.drop_last()).push(s.last())
    }
}

/// The Scheme text of `t` on one line: a list is its children separated by
/// single spaces, in parentheses.
pub open spec fn flat_text(t: SpecTree) -> Seq<char>
    decreases t,
{
    match t {
        SpecTree::Atom(a) => a,
        SpecTree::List(ch) => "("@ + flat_children(ch) + ")"@,
    }
}

/// The one-line texts of the trees `ch`, separated by single spaces.
pub open spec fn flat_children(ch: Seq<SpecTree>) -> Seq<char>
    decreases ch,
{
    if ch.len() == 0 {
        Seq::empty()
    } else if ch.len() == 1 {
        flat_text(ch[0])
    } else {
        flat_children(ch.drop_last()) + " "@ + flat_text(ch.last())
    }
}

proof fn lemma_without_layout_add(a: Seq<char>, b: Seq<char>)
    ensures
        without_layout(a + b) == without_layout(a) + without_layout(b),
    decreases b.len(),
{
    if b.len() == 0 {
        assert(a + b =~= a);
        assert(without_layout(a) + without_layout(b) =~= without_layout(a));
    } else {
        lemma_without_layout_add(a, b.drop_last());
        assert((a + b).drop_last() =~= a + b.drop_last());
        assert((a + b).last() == b.last());
        let x = without_layout(a);
        let y = without_layout(b.drop_last());
        assert((x + y).push(b.last()) =~= x + y.push(b.last()));
    }
}

proof fn lemma_without_layout_free(s: Seq<char>)
    requires
        free_of_layout(s),
    ensures
        without_layout(s) == s,
    decreases s.len(),
{
    if s.len() > 0 {
        assert(!is_layout(s[s.len() - 1]));
        lemma_without_layout_free(s.drop_last());
        assert(s.drop_last().push(s.last()) =~= s);
    }
}

proof fn lemma_without_layout_only(s: Seq<char>)
    requires
        only_layout(s),
    ensures
        without_layout(s) == Seq::<char>::empty(),
    decreases s.len(),
{
    if s.len() > 0 {
        assert(is_layout(s[s.len() - 1]));
        lemma_without_layout_only(s.drop_last());
    }
}

proof fn lemma_repeat_only_layout(s: Seq<char>, n: nat)
    requires
        only_layout(s),
    ensures
        only_layout(repeat_chars(s, n)),
    decreases n,
{
    if n > 0 {
        lemma_repeat_only_layout(s, (n - 1) as nat);
        let r = repeat_chars(s, (n - 1) as nat);
        assert forall|k: int| 0 <= k < repeat_chars(s, n).len() implies #[trigger] is_layout(
            repeat_chars(s, n)[k],
        ) by {
            if k < r.len() {
                assert(repeat_chars(s, n)[k] == r[k]);
            } else {
                assert(repeat_chars(s, n)[k] == s[k - r.len()]);
            }
        }
    }
}

proof fn lemma_line_break_only_layout(depth: usize, indent: Seq<char>)
    requires
        only_layout(indent),
    ensures
        without_layout(spec_line_break(depth, indent)) == Seq::<char>::empty(),
{
    reveal_strlit("\n");
    lemma_repeat_only_layout(indent, depth as nat);
    let lb = spec_line_break(depth, indent);
    let r = repeat_chars(indent, depth as nat);
    assert forall|k: int| 0 <= k < lb.len() implies #[trigger] is_layout(lb[k]) by {
        if k == 0 {
            assert(lb[0] == '\n');
        } else {
            assert(lb[k] == r[k - 1]);
        }
    }
    lemma_without_layout_only(lb);
}

/// Printing adds only layout: with the line breaks and tabs taken out, the
/// printed text of `t` is its one-line text, provided no atom holds a line
/// break or a tab and the indentation is made of them.
pub proof fn lemma_printing_adds_only_layout(t: SpecTree, depth: usize, indent: Seq<char>)
    requires
        atoms_satisfy(t, |a: Seq<char>| free_of_layout(a)),
        only_layout(indent),
    ensures
        without_layout(spec_fmt(t, depth, indent).0) == flat_text(t),
    decreases t,
{
    reveal_strlit("()");
    reveal_strlit("(");
    reveal_strlit(")");
    match t {
        SpecTree::Atom(a) => {
            lemma_without_layout_free(a);
        },
        SpecTree::List(ch) => {
            if ch.len() == 0 {
                assert(free_of_layout("()"@));
                lemma_without_layout_free("()"@);
                assert(flat_children(ch) =~= Seq::<char>::empty());
                assert("("@ + flat_children(ch) + ")"@ =~= "()"@);
            } else {
                let lb = spec_line_break(depth, indent);
                let inner = spec_fmt_children(ch, next_depth(depth), indent);
                let close = if inner.1 {
                    lb + ")"@
                } else {
                    ")"@
                };
                lemma_line_break_only_layout(depth, indent);
                lemma_children_add_only_layout(ch, next_depth(depth), indent);
                assert(free_of_layout("("@));
                assert(free_of_layout(")"@));
                lemma_without_layout_free("("@);
                lemma_without_layout_free(")"@);
                lemma_without_layout_add(lb + "("@ + inner.0, close);
                lemma_without_layout_add(lb + "("@, inner.0);
                lemma_without_layout_add(lb, "("@);
                if inner.1 {
                    lemma_without_layout_add(lb, ")"@);
                }
                assert(without_layout(close) == ")"@);
                assert(Seq::<char>::empty() + "("@ =~= "("@);
            }
        },
    }
}

proof fn lemma_children_add_only_layout(ch: Seq<SpecTree>, depth: usize, indent: Seq<char>)
    requires
        children_atoms_satisfy(ch, |a: Seq<char>| free_of_layout(a)),
        only_layout(indent),
    ensures
        without_layout(spec_fmt_children(ch, depth, indent).0) == flat_children(ch),
    decreases ch,
{
    reveal_strlit(" ");
    if ch.len() == 0 {
        assert(without_layout(Seq::<char>::empty()) =~= Seq::<char>::empty());
    } else if ch.len() == 1 {
        assert(ch.drop_last().len() == 0);
        assert(ch.last() == ch[0]);
        lemma_printing_adds_only_layout(ch[0], depth, indent);
    } else {
        lemma_children_add_only_layout(ch.drop_last(), depth, indent);
        lemma_printing_adds_only_layout(ch.last(), depth, indent);
        let a = spec_fmt_children(ch.drop_last(), depth, indent).0;
        let b = spec_fmt(ch.last(), depth, indent).0;
        assert(free_of_layout(" "@));
        lemma_without_layout_free(" "@);
        lemma_without_layout_add(a + " "@, b);
        lemma_without_layout_add(a, " "@);
    }
}


/// No character of `s` is a line break.
pub open spec fn free_of_line_breaks(s: Seq<char>) -> bool {
    forall|k: int| 0 <= k < s.len() ==> #[trigger] s[k] != '\n'
}

/// `s` with `indent` put after each of its line breaks.
pub open spec fn indent_lines(s: Seq<char>, indent: Seq<char>) -> Seq<char>
    decreases s.len(),
{
    if s.len() == 0 {
        Seq::empty()
    } else if s.last() == '\n' {
        indent_lines(s.drop_last(), indent) + "\n"@ + indent
    } else {
        indent_lines(s.drop_last(), indent).push(s.last())
    }
}

/// How deeply lists nest in `t`: 0 for an atom.
pub open spec fn height(t: SpecTree) -> nat
    decreases t,
{
    match t {
        SpecTree::Atom(_) => 0,
        SpecTree::List(ch) => 1 + children_height(ch),
    }
}

/// The greatest height among the trees `ch` (0 for none).
pub open spec fn children_height(ch: Seq<SpecTree>) -> nat
    decreases ch,
{
    if ch.len() == 0 {
        0
    } else {
        let a = children_height(ch.drop_last());
        let b = height(ch.last());
        if a < b {
            b
        } else {
            a
        }
    }
}

proof fn lemma_indent_lines_add(a: Seq<char>, b: Seq<char>, indent: Seq<char>)
    ensures
        indent_lines(a + b, indent) == indent_lines(a, indent) + indent_lines(b, indent),
    decreases b.len(),
{
    if b.len() == 0 {
        assert(a + b =~= a);
        assert(indent_lines(a, indent) + indent_lines(b, indent) =~= indent_lines(a, indent));
    } else {
        lemma_indent_lines_add(a, b.drop_last(), indent);
        assert((a + b).drop_last() =~= a + b.drop_last());
        assert((a + b).last() == b.last());
        let x = indent_lines(a, indent);
        let y = indent_lines(b.drop_last(), indent);
        assert((x + y).push(b.last()) =~= x + y.push(b.last()));
        assert(x + y + "\n"@ + indent =~= x + (y + "\n"@ + indent));
    }
}

proof fn lemma_indent_lines_free(s: Seq<char>, indent: Seq<char>)
    requires
        free_of_line_breaks(s),
    ensures
        indent_lines(s, indent) == s,
    decreases s.len(),
{
    if s.len() > 0 {
        assert(s[s.len() - 1] != '\n');
        lemma_indent_lines_free(s.drop_last(), indent);
        assert(s.drop_last().push(s.last()) =~= s);
    }
}

proof fn lemma_repeat_free_of_line_breaks(s: Seq<char>, n: nat)
    requires
        free_of_line_breaks(s),
    ensures
        free_of_line_breaks(repeat_chars(s, n)),
    decreases n,
{
    if n > 0 {
        lemma_repeat_free_of_line_breaks(s, (n - 1) as nat);
        let r = repeat_chars(s, (n - 1) as nat);
        assert forall|k: int| 0 <= k < repeat_chars(s, n).len() implies #[trigger] repeat_chars(
            s,
            n,
        )[k] != '\n' by {
            if k < r.len() {
                assert(repeat_chars(s, n)[k] == r[k]);
            } else {
                assert(repeat_chars(s, n)[k] == s[k - r.len()]);
            }
        }
    }
}

proof fn lemma_repeat_commutes(s: Seq<char>, n: nat)
    ensures
        repeat_chars(s, n) + s == s + repeat_chars(s, n),
    decreases n,
{
    if n == 0 {
        assert(repeat_chars(s, n) + s =~= s + repeat_chars(s, n));
    } else {
        lemma_repeat_commutes(s, (n - 1) as nat);
        let r = repeat_chars(s, (n - 1) as nat);
        assert(r + s + s =~= s + (r + s));
    }
}

proof fn lemma_line_break_deeper(depth: usize, indent: Seq<char>)
    requires
        free_of_line_breaks(indent),
        depth < usize::MAX,
    ensures
        indent_lines(spec_line_break(depth, indent), indent) == spec_line_break(
            (depth + 1) as usize,
            indent,
        ),
{
    reveal_strlit("\n");
    let r = repeat_chars(indent, depth as nat);
    lemma_repeat_free_of_line_breaks(indent, depth as nat);
    lemma_indent_lines_free(r, indent);
    lemma_indent_lines_add("\n"@, r, indent);
    assert("\n"@.drop_last() =~= Seq::<char>::empty());
    assert("\n"@.len() == 1 && "\n"@.last() == '\n');
    assert(indent_lines(Seq::<char>::empty(), indent) =~= Seq::<char>::empty());
    assert(indent_lines("\n"@, indent) =~= "\n"@ + indent);
    lemma_repeat_commutes(indent, depth as nat);
    assert(repeat_chars(indent, (depth + 1) as nat) == r + indent);
    assert("\n"@ + indent + r =~= "\n"@ + (indent + r));
    assert("\n"@ + (r + indent) =~= spec_line_break((depth + 1) as usize, indent));
}

proof fn lemma_children_flag(ch: Seq<SpecTree>, d1: usize, d2: usize, indent: Seq<char>)
    ensures
        spec_fmt_children(ch, d1, indent).1 == spec_fmt_children(ch, d2, indent).1,
    decreases ch.len(),
{
    if ch.len() > 0 {
        assert(spec_fmt(ch.last(), d1, indent).1 == spec_fmt(ch.last(), d2, indent).1);
        assert(spec_fmt(ch[0], d1, indent).1 == spec_fmt(ch[0], d2, indent).1);
    }
    if ch.len() > 1 {
        lemma_children_flag(ch.drop_last(), d1, d2, indent);
    }
}

/// Printed one level deeper, the text of `t` is the same with one more
/// indentation after each line break, and the printer says the same of line
/// breaks; provided no atom and not the indentation hold a line break, and
/// the depths stay below `usize::MAX`.
pub proof fn lemma_deeper_printing_indents_lines(t: SpecTree, depth: usize, indent: Seq<char>)
    requires
        atoms_satisfy(t, |a: Seq<char>| free_of_line_breaks(a)),
        free_of_line_breaks(indent),
        depth + height(t) < usize::MAX,
    ensures
        spec_fmt(t, (depth + 1) as usize, indent).0 == indent_lines(
            spec_fmt(t, depth, indent).0,
            indent,
        ),
        spec_fmt(t, (depth + 1) as usize, indent).1 == spec_fmt(t, depth, indent).1,
    decreases t,
{
    reveal_strlit("()");
    reveal_strlit("(");
    reveal_strlit(")");
    match t {
        SpecTree::Atom(a) => {
            lemma_indent_lines_free(a, indent);
        },
        SpecTree::List(ch) => {
            if ch.len() == 0 {
                assert(free_of_line_breaks("()"@));
                lemma_indent_lines_free("()"@, indent);
            } else {
                let d1 = (depth + 1) as usize;
                let lb = spec_line_break(depth, indent);
                let inner = spec_fmt_children(ch, d1, indent);
                let close = if inner.1 {
                    lb + ")"@
                } else {
                    ")"@
                };
                assert(next_depth(depth) == d1);
                assert(next_depth(d1) == (depth + 2) as usize);
                lemma_line_break_deeper(depth, indent);
                lemma_children_deeper(ch, d1, indent);
                lemma_children_flag(ch, d1, (depth + 2) as usize, indent);
                assert(free_of_line_breaks("("@));
                assert(free_of_line_breaks(")"@));
                lemma_indent_lines_free("("@, indent);
                lemma_indent_lines_free(")"@, indent);
                lemma_indent_lines_add(lb + "("@ + inner.0, close, indent);
                lemma_indent_lines_add(lb + "("@, inner.0, indent);
                lemma_indent_lines_add(lb, "("@, indent);
                if inner.1 {
                    lemma_indent_lines_add(lb, ")"@, indent);
                }
            }
        },
    }
}

proof fn lemma_children_deeper(ch: Seq<SpecTree>, depth: usize, indent: Seq<char>)
    requires
        children_atoms_satisfy(ch, |a: Seq<char>| free_of_line_breaks(a)),
        free_of_line_breaks(indent),
        depth + children_height(ch) < usize::MAX,
    ensures
        spec_fmt_children(ch, (depth + 1) as usize, indent).0 == indent_lines(
            spec_fmt_children(ch, depth, indent).0,
            indent,
        ),
    decreases ch,
{
    reveal_strlit(" ");
    if ch.len() == 0 {
        assert(indent_lines(Seq::<char>::empty(), indent) =~= Seq::<char>::empty());
    } else if ch.len() == 1 {
        assert(ch.drop_last().len() == 0);
        assert(ch.last() == ch[0]);
        lemma_deeper_printing_indents_lines(ch[0], depth, indent);
    } else {
        lemma_children_deeper(ch.drop_last(), depth, indent);
        lemma_deeper_printing_indents_lines(ch.last(), depth, indent);
        let a = spec_fmt_children(ch.drop_last(), depth, indent).0;
        let b = spec_fmt(ch.last(), depth, indent).0;
        assert(free_of_line_breaks(" "@));
        lemma_indent_lines_free(" "@, indent);
        lemma_indent_lines_add(a + " "@, b, indent);
        lemma_indent_lines_add(a, " "@, indent);
    }
}

} // verus!
