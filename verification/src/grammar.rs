use vstd::prelude::*;

verus! {

/// The mathematical model of a grammar tree: an atom is its text, a list is
/// the sequence of its children.
pub enum SpecTree {
    Atom(Seq<char>),
    List(Seq<SpecTree>),
}

/// Grammar tree constructed from the parsed input.
#[derive(Debug, PartialEq)]
pub enum GrammarTree<'i> {
    Atom(&'i str),
    List(Vec<GrammarTree<'i>>),
}

impl<'i> GrammarTree<'i> {
    /// The model of a tree: atoms by the text they hold.
    pub open spec fn model(&self) -> SpecTree
        decreases self,
    {
        match self {
            GrammarTree::Atom(a) => SpecTree::Atom(a@),
            GrammarTree::List(v) => SpecTree::List(
                Seq::new(v.len() as nat, |i: int| if 0 <= i < v.len() { v@[i].model() } else { SpecTree::List(Seq::empty()) }),
            ),
        }
    }
}

impl<'i> View for GrammarTree<'i> {
    type V = SpecTree;

    open spec fn view(&self) -> SpecTree {
        self.model()
    }
}


impl<'i> From<&'i str> for GrammarTree<'i> {
    /// The atom that holds `string`.
    fn from(string: &'i str) -> (t: Self) {
        GrammarTree::Atom(string)
    }
}

impl<'i> vstd::std_specs::convert::FromSpecImpl<&'i str> for GrammarTree<'i> {
    open spec fn obeys_from_spec() -> bool {
        true
    }

    open spec fn from_spec(v: &'i str) -> Self {
        GrammarTree::Atom(v)
    }
}

impl<'i> From<Vec<GrammarTree<'i>>> for GrammarTree<'i> {
    /// The list of the trees `vec`.
    fn from(vec: Vec<GrammarTree<'i>>) -> (t: Self) {
        GrammarTree::List(vec)
    }
}

impl<'i> vstd::std_specs::convert::FromSpecImpl<Vec<GrammarTree<'i>>> for GrammarTree<'i> {
    open spec fn obeys_from_spec() -> bool {
        true
    }

    open spec fn from_spec(v: Vec<GrammarTree<'i>>) -> Self {
        GrammarTree::List(v)
    }
}

/// `(name arg)`: a list of an atom and one argument.
pub open spec fn apply1(name: Seq<char>, arg: SpecTree) -> SpecTree {
    SpecTree::List(seq![SpecTree::Atom(name), arg])
}

/// `(cdr (cdr ... x))` with `n` applications of `cdr`.
pub open spec fn spec_index_after(x: SpecTree, n: nat) -> SpecTree
    decreases n,
{
    if n == 0 {
        x
    } else {
        apply1("cdr"@, spec_index_after(x, (n - 1) as nat))
    }
}

/// `(car (cdr ... x))`: the element at index `n` of the list `x` evaluates to.
pub open spec fn spec_element_at(x: SpecTree, n: nat) -> SpecTree {
    apply1("car"@, spec_index_after(x, n))
}

/// The elements at indices `0 .. end` of the list `x` evaluates to.
pub open spec fn spec_index_until(x: SpecTree, end: nat) -> Seq<SpecTree> {
    Seq::new(end, |i: int| spec_element_at(x, i as nat))
}

/// The models of a sequence of trees.
pub open spec fn models<'i>(v: Seq<GrammarTree<'i>>) -> Seq<SpecTree> {
    Seq::new(v.len(), |i: int| v[i]@)
}

/// The model of a list is the list of its children's models.
pub proof fn lemma_list_model<'i>(v: Vec<GrammarTree<'i>>)
    ensures
        GrammarTree::List(v)@ == SpecTree::List(models(v@)),
{
    assert(GrammarTree::List(v)@->List_0 =~= models(v@));
}

/// Appending a tree appends its model.
pub proof fn lemma_models_push<'i>(v: Seq<GrammarTree<'i>>, t: GrammarTree<'i>)
    ensures
        models(v.push(t)) == models(v).push(t@),
{
    assert(models(v.push(t)) =~= models(v).push(t@));
}

impl<'i> GrammarTree<'i> {
    /// A copy of the tree, atom for atom.
    pub fn deep_clone(&self) -> (r: Self)
        ensures
            r@ == self@,
        decreases self,
    {
        match self {
            GrammarTree::Atom(a) => GrammarTree::Atom(*a),
            GrammarTree::List(v) => {
                let mut out: Vec<GrammarTree<'i>> = Vec::new();
                let mut i: usize = 0;
                while i < v.len()
                    invariant
                        i <= v.len(),
                        *self == GrammarTree::List(*v),
                        out@.len() == i,
                        forall|j: int| 0 <= j < i ==> #[trigger] out@[j]@ == v@[j]@,
                    decreases v.len() - i,
                {
                    proof {
                        assert(decreases_to!(*self => self->List_0));
                        assert(decreases_to!(v@ => v@[i as int]));
                    }
                    let c = v[i].deep_clone();
                    out.push(c);
                    i = i + 1;
                }
                proof {
                    lemma_list_model(out);
                    lemma_list_model(*v);
                    assert(models(out@) =~= models(v@));
                }
                GrammarTree::List(out)
            }
        }
    }

    /// The list `(name arg)`.
    pub fn apply1(name: &'i str, arg: GrammarTree<'i>) -> (r: GrammarTree<'i>)
        ensures
            r@ == apply1(name@, arg@),
    {
        let v = vec![GrammarTree::Atom(name), arg];
        proof {
            lemma_list_model(v);
            assert(models(v@) =~= seq![SpecTree::Atom(name@), arg@]);
        }
        GrammarTree::List(v)
    }
}

impl<'i> Clone for GrammarTree<'i> {
    fn clone(&self) -> (r: Self)
        ensures
            r@ == self@,
    {
        self.deep_clone()
    }
}


/// `n` copies of `s`, one after the other.
pub open spec fn repeat_chars(s: Seq<char>, n: nat) -> Seq<char>
    decreases n,
{
    if n == 0 {
        Seq::empty()
    } else {
        repeat_chars(s, (n - 1) as nat) + s
    }
}

/// The indentation depth of the children of a list at `depth`; it stops
/// growing at `usize::MAX`.
pub open spec fn next_depth(depth: usize) -> usize {
    if depth < usize::MAX {
        (depth + 1) as usize
    } else {
        depth
    }
}

/// A newline followed by `depth` copies of `indent`.
pub open spec fn spec_line_break(depth: usize, indent: Seq<char>) -> Seq<char> {
    "\n"@ + repeat_chars(indent, depth as nat)
}

/// The pretty-printed Scheme text of `t` at indentation level `depth`, and
/// whether that text holds a line break that the printer added.
///
/// An atom is its own text; an empty list is `()`; any other list starts on
/// a new line indented `depth` times, holds its children separated by single
/// spaces, and puts its closing parenthesis on a new line of its own when
/// one of its children added a line break.
pub open spec fn spec_fmt(t: SpecTree, depth: usize, indent: Seq<char>) -> (Seq<char>, bool)
    decreases t,
{
    match t {
        SpecTree::Atom(a) => (a, false),
        SpecTree::List(ch) => {
            if ch.len() == 0 {
                ("()"@, false)
            } else {
                let inner = spec_fmt_children(ch, next_depth(depth), indent);
                let close = if inner.1 {
                    spec_line_break(depth, indent) + ")"@
                } else {
                    ")"@
                };
                (spec_line_break(depth, indent) + "("@ + inner.0 + close, true)
            }
        },
    }
}

/// The children `ch` printed at `depth` and separated by single spaces, and
/// whether any of them added a line break.
pub open spec fn spec_fmt_children(ch: Seq<SpecTree>, depth: usize, indent: Seq<char>) -> (
    Seq<char>,
    bool,
)
    decreases ch,
{
    if ch.len() == 0 {
        (Seq::empty(), false)
    } else if ch.len() == 1 {
        spec_fmt(ch[0], depth, indent)
    } else {
        let init = spec_fmt_children(ch.drop_last(), depth, indent);
        let last = spec_fmt(ch.last(), depth, indent);
        (init.0 + " "@ + last.0, last.1 || init.1)
    }
}

/// Whether the printed text of `t` begins with a line break: `t` is a
/// nonempty list.
pub open spec fn starts_new_line(t: SpecTree) -> bool {
    t is List && t->List_0.len() > 0
}

/// What stands between two top-level trees before `t`: nothing when `t`
/// begins on a new line, else a space, so that the two stay apart.
pub open spec fn top_level_separator(t: SpecTree) -> Seq<char> {
    if starts_new_line(t) {
        Seq::empty()
    } else {
        " "@
    }
}

/// The trees `ch` each printed at depth 0, one after the other, each after
/// the first preceded by its separator.
pub open spec fn spec_fmt_sequence(ch: Seq<SpecTree>, indent: Seq<char>) -> Seq<char>
    decreases ch.len(),
{
    if ch.len() == 0 {
        Seq::empty()
    } else if ch.len() == 1 {
        spec_fmt(ch[0], 0, indent).0
    } else {
        spec_fmt_sequence(ch.drop_last(), indent) + top_level_separator(ch.last()) + spec_fmt(
            ch.last(),
            0,
            indent,
        ).0
    }
}

/// The text of `t` printed as a whole program: the children of a top-level
/// list are printed one after the other, apart from each other, without the
/// list's own parentheses.
pub open spec fn spec_fmt_top_level(t: SpecTree, indent: Seq<char>) -> Seq<char> {
    match t {
        SpecTree::Atom(a) => a,
        SpecTree::List(ch) => spec_fmt_sequence(ch, indent),
    }
}

/// Appends `depth` copies of `indent` to `out`.
fn write_indent(out: &mut String, depth: usize, indent: &str)
    ensures
        final(out)@ == old(out)@ + repeat_chars(indent@, depth as nat),
{
    let mut k: usize = 0;
    while k < depth
        invariant
            k <= depth,
            out@ == old(out)@ + repeat_chars(indent@, k as nat),
        decreases depth - k,
    {
        out.append(indent);
        k = k + 1;
        assert(out@ =~= old(out)@ + repeat_chars(indent@, k as nat));
    }
}

impl<'i> GrammarTree<'i> {
    /// Formats `self` as if it was top level, skipping the first list parens.
    pub fn fmt_scheme_top_level(&self, out: &mut String, indent: &str)
        ensures
            final(out)@ == old(out)@ + spec_fmt_top_level(self@, indent@),
    {
        match self {
            GrammarTree::Atom(a) => {
                self.fmt_scheme(out, 0, indent);
            },
            GrammarTree::List(list) => {
                proof {
                    lemma_list_model(*list);
                }
                let ghost ch = models(list@);
                let mut i: usize = 0;
                while i < list.len()
                    invariant
                        i <= list.len(),
                        ch == models(list@),
                        out@ == old(out)@ + spec_fmt_sequence(ch.take(i as int), indent@),
                    decreases list.len() - i,
                {
                    proof {
                        assert(ch.take(i + 1).drop_last() =~= ch.take(i as int));
                        assert(ch.take(i + 1).last() == ch[i as int]);
                        if i == 0 {
                            assert(ch.take(1)[0] == ch[0]);
                        }
                    }
                    if i > 0 {
                        let new_line = match &list[i] {
                            GrammarTree::List(v) => v.len() > 0,
                            GrammarTree::Atom(_) => false,
                        };
                        if !new_line {
                            out.append(" ");
                        }
                    }
                    list[i].fmt_scheme(out, 0, indent);
                    i = i + 1;
                }
                assert(ch.take(i as int) =~= ch);
            },
        }
    }

    /// Formats `self` as pretty printed scheme code, starting at `depth` indentation level.
    ///
    /// Returns `true` if there were any newlines added in the output.
    pub fn fmt_scheme(&self, out: &mut String, depth: usize, indent: &str) -> (nl: bool)
        ensures
            final(out)@ == old(out)@ + spec_fmt(self@, depth, indent@).0,
            nl == spec_fmt(self@, depth, indent@).1,
            nl == (self@ is List && self@->List_0.len() > 0),
        decreases self,
    {
        match self {
            GrammarTree::Atom(atom) => {
                out.append(*atom);
                false
            },
            GrammarTree::List(list) => {
                proof {
                    lemma_list_model(*list);
                }
                let ghost ch = models(list@);
                if list.len() == 0 {
                    out.append("()");
                    return false;
                }
                let child_depth = if depth < usize::MAX {
                    depth + 1
                } else {
                    depth
                };
                out.append("\n");
                write_indent(out, depth, indent);
                out.append("(");
                let ghost head = out@;
                proof {
                    assert(decreases_to!(*self => self->List_0));
                    assert(decreases_to!(list@ => list@[0]));
                }
                let mut any_newline = list[0].fmt_scheme(out, child_depth, indent);
                let mut i: usize = 1;
                while i < list.len()
                    invariant
                        1 <= i <= list.len(),
                        *self == GrammarTree::List(*list),
                        ch == models(list@),
                        child_depth == next_depth(depth),
                        out@ == head + spec_fmt_children(ch.take(i as int), child_depth, indent@).0,
                        any_newline == spec_fmt_children(ch.take(i as int), child_depth, indent@).1,
                    decreases list.len() - i,
                {
                    proof {
                        assert(decreases_to!(*self => self->List_0));
                        assert(decreases_to!(list@ => list@[i as int]));
                        assert(ch.take(i + 1).drop_last() =~= ch.take(i as int));
                    }
                    out.append(" ");
                    let child_newline = list[i].fmt_scheme(out, child_depth, indent);
                    any_newline = child_newline || any_newline;
                    i = i + 1;
                    assert(out@ =~= head + spec_fmt_children(ch.take(i as int), child_depth, indent@).0);
                }
                assert(ch.take(i as int) =~= ch);
                if any_newline {
                    out.append("\n");
                    write_indent(out, depth, indent);
                }
                out.append(")");
                true
            },
        }
    }
}


impl<'i> GrammarTree<'i> {
    /// The whole tree as Scheme program text, indented with tabs.
    pub fn scheme_text(&self) -> (text: String)
        ensures
            text@ == spec_fmt_top_level(self@, "\t"@),
    {
        let mut out = String::new();
        self.fmt_scheme_top_level(&mut out, "\t");
        out
    }
}

/// No atom of `t` holds a line break.
pub open spec fn atoms_without_newline(t: SpecTree) -> bool
    decreases t,
{
    match t {
        SpecTree::Atom(a) => !a.contains('\n'),
        SpecTree::List(ch) => forall|i: int|
            0 <= i < ch.len() ==> #[trigger] atoms_without_newline(ch[i]),
    }
}

/// The flag that the printer returns is true exactly when the printed text
/// holds a line break, provided the atoms and the indentation hold none.
pub proof fn lemma_newline_flag(t: SpecTree, depth: usize, indent: Seq<char>)
    requires
        atoms_without_newline(t),
    ensures
        spec_fmt(t, depth, indent).1 <==> spec_fmt(t, depth, indent).0.contains('\n'),
{
    reveal_strlit("()");
    reveal_strlit("\n");
    match t {
        SpecTree::Atom(a) => {},
        SpecTree::List(ch) => {
            if ch.len() == 0 {
                assert(!"()"@.contains('\n'));
            } else {
                assert(spec_fmt(t, depth, indent).0[0] == '\n');
            }
        },
    }
}

} // verus!
