//! What the parser reads from, and does to, the nodes of a syntax tree.

use vstd::prelude::*;

use crate::ast::view::{
    group_view, AlternationView, AstView, ClassSetItemView, ClassSetOpView, ClassSetUnionView,
    ClassView, ConcatView, GroupKindView,
};
use crate::ast::{
    Alternation, Ast, Class, ClassAsciiKind, ClassSetItem, ClassSetOp, ClassSetUnion, Concat, Flag,
    Flags, FlagsItem, FlagsItemKind, Group, GroupKind, Span,
};

verus! {

broadcast use group_view;

/// The part of the pattern that a tree covers.
pub open spec fn ast_span(ast: AstView) -> Span {
    match ast {
        AstView::Empty(span) => span,
        AstView::Flags(x) => x.span,
        AstView::Literal(x) => x.span,
        AstView::Dot(span) => span,
        AstView::Assertion(x) => x.span,
        AstView::Class(x) => class_span(x),
        AstView::Repetition(x) => x.span,
        AstView::Group(x) => x.span,
        AstView::Alternation(x) => x.span,
        AstView::Concat(x) => x.span,
    }
}

/// The part of the pattern that a class covers.
pub open spec fn class_span(class: ClassView) -> Span {
    match class {
        ClassView::Unicode(x) => x.span,
        ClassView::Perl(x) => x.span,
        ClassView::Bracketed(x) => x.span,
    }
}

/// The part of the pattern that the contents of a bracketed class cover.
pub open spec fn class_set_op_span(op: ClassSetOpView) -> Span {
    match op {
        ClassSetOpView::Union(x) => x.span,
        ClassSetOpView::BinaryOp(x) => x.span,
    }
}

/// The part of the pattern that an item of a bracketed class covers.
pub open spec fn class_set_item_span(item: ClassSetItemView) -> Span {
    match item {
        ClassSetItemView::Literal(x) => x.span,
        ClassSetItemView::Range(x) => x.span,
        ClassSetItemView::Ascii(x) => x.span,
        ClassSetItemView::Class(x) => class_span(*x),
    }
}

/// The tree that a concatenation stands for: the empty expression if it has
/// no part, its part if it has one, and the concatenation itself otherwise.
pub open spec fn concat_into_ast(concat: ConcatView) -> AstView {
    if concat.asts.len() == 0 {
        AstView::Empty(concat.span)
    } else if concat.asts.len() == 1 {
        concat.asts[0]
    } else {
        AstView::Concat(concat)
    }
}

/// The tree that an alternation stands for: the empty expression if it has no
/// branch, its branch if it has one, and the alternation itself otherwise.
pub open spec fn alternation_into_ast(alt: AlternationView) -> AstView {
    if alt.asts.len() == 0 {
        AstView::Empty(alt.span)
    } else if alt.asts.len() == 1 {
        alt.asts[0]
    } else {
        AstView::Alternation(alt)
    }
}

/// A union with one more item. It then reaches from the start of its first
/// item to the end of its last one.
pub open spec fn union_push(union: ClassSetUnionView, item: ClassSetItemView) -> ClassSetUnionView {
    ClassSetUnionView {
        span: Span {
            start: if union.items.len() == 0 {
                class_set_item_span(item).start
            } else {
                union.span.start
            },
            end: class_set_item_span(item).end,
        },
        items: union.items.push(item),
    }
}

/// The index of the first item of the given kind.
pub open spec fn find_item(items: Seq<FlagsItem>, kind: FlagsItemKind) -> Option<int>
    decreases items.len(),
{
    if items.len() == 0 {
        None
    } else {
        match find_item(items.drop_last(), kind) {
            Some(i) => Some(i),
            None => if items.last().kind == kind {
                Some(items.len() - 1)
            } else {
                None
            },
        }
    }
}

/// The state that a sequence of flags gives to a flag: `None` if it does not
/// hold the flag, `Some(false)` if a negation stands before the flag, and
/// `Some(true)` otherwise.
pub open spec fn flag_state(items: Seq<FlagsItem>, flag: Flag) -> Option<bool> {
    match find_item(items, FlagsItemKind::Flag(flag)) {
        None => None,
        Some(i) => Some(find_item(items.take(i), FlagsItemKind::Negation) is None),
    }
}

/// What [`find_item`] finds is the first item of its kind.
pub proof fn lemma_find_item(items: Seq<FlagsItem>, kind: FlagsItemKind)
    ensures
        match find_item(items, kind) {
            Some(i) => {
                &&& 0 <= i < items.len()
                &&& items[i].kind == kind
                &&& forall|j: int| 0 <= j < i ==> (#[trigger] items[j]).kind != kind
            },
            None => forall|j: int| 0 <= j < items.len() ==> (#[trigger] items[j]).kind != kind,
        },
    decreases items.len(),
{
    if items.len() > 0 {
        let front = items.drop_last();
        lemma_find_item(front, kind);
        assert(forall|j: int| 0 <= j < front.len() ==> #[trigger] items[j] == front[j]);
    }
}

/// The first item of its kind is what [`find_item`] finds.
pub proof fn lemma_find_item_unique(items: Seq<FlagsItem>, kind: FlagsItemKind, i: int)
    requires
        0 <= i < items.len(),
        items[i].kind == kind,
        forall|j: int| 0 <= j < i ==> (#[trigger] items[j]).kind != kind,
    ensures
        find_item(items, kind) == Some(i),
{
    lemma_find_item(items, kind);
    match find_item(items, kind) {
        Some(k) => {
            if k < i {
                assert(items[k].kind != kind);
            }
        },
        None => {
            assert(items[i].kind != kind);
        },
    }
}

/// The flags that a group is opened with, if any.
pub open spec fn group_flags(kind: GroupKindView) -> Option<Seq<FlagsItem>> {
    match kind {
        GroupKindView::NonCapturing(flags) => Some(flags.items),
        _ => None,
    }
}

/// The ASCII class of the given name, if there is one.
pub open spec fn ascii_kind_of_name(name: Seq<char>) -> Option<ClassAsciiKind> {
    if name == "alnum"@ {
        Some(ClassAsciiKind::Alnum)
    } else if name == "alpha"@ {
        Some(ClassAsciiKind::Alpha)
    } else if name == "ascii"@ {
        Some(ClassAsciiKind::Ascii)
    } else if name == "blank"@ {
        Some(ClassAsciiKind::Blank)
    } else if name == "cntrl"@ {
        Some(ClassAsciiKind::Cntrl)
    } else if name == "digit"@ {
        Some(ClassAsciiKind::Digit)
    } else if name == "graph"@ {
        Some(ClassAsciiKind::Graph)
    } else if name == "lower"@ {
        Some(ClassAsciiKind::Lower)
    } else if name == "print"@ {
        Some(ClassAsciiKind::Print)
    } else if name == "punct"@ {
        Some(ClassAsciiKind::Punct)
    } else if name == "space"@ {
        Some(ClassAsciiKind::Space)
    } else if name == "upper"@ {
        Some(ClassAsciiKind::Upper)
    } else if name == "word"@ {
        Some(ClassAsciiKind::Word)
    } else if name == "xdigit"@ {
        Some(ClassAsciiKind::Xdigit)
    } else {
        None
    }
}

impl Ast {
    /// The part of the pattern that this tree covers.
    pub fn span(&self) -> (r: &Span)
        ensures
            *r == ast_span(self@),
    {
        match self {
            Ast::Empty(span) => span,
            Ast::Flags(x) => &x.span,
            Ast::Literal(x) => &x.span,
            Ast::Dot(span) => span,
            Ast::Assertion(x) => &x.span,
            Ast::Class(x) => x.span(),
            Ast::Repetition(x) => &x.span,
            Ast::Group(x) => &x.span,
            Ast::Alternation(x) => &x.span,
            Ast::Concat(x) => &x.span,
        }
    }
}

impl Class {
    /// The part of the pattern that this class covers.
    pub fn span(&self) -> (r: &Span)
        ensures
            *r == class_span(self@),
    {
        match self {
            Class::Unicode(x) => &x.span,
            Class::Perl(x) => &x.span,
            Class::Bracketed(x) => &x.span,
        }
    }
}

impl ClassSetOp {
    /// The part of the pattern that these contents cover.
    pub fn span(&self) -> (r: &Span)
        ensures
            *r == class_set_op_span(self@),
    {
        match self {
            ClassSetOp::Union(x) => &x.span,
            ClassSetOp::BinaryOp(x) => &x.span,
        }
    }
}

impl ClassSetItem {
    /// The part of the pattern that this item covers.
    pub fn span(&self) -> (r: &Span)
        ensures
            *r == class_set_item_span(self@),
    {
        match self {
            ClassSetItem::Literal(x) => &x.span,
            ClassSetItem::Range(x) => &x.span,
            ClassSetItem::Ascii(x) => &x.span,
            ClassSetItem::Class(x) => x.span(),
        }
    }
}

impl ClassSetUnion {
    /// Add an item at the end of this union and adjust its span.
    pub fn push(&mut self, item: ClassSetItem)
        ensures
            final(self)@ == union_push(old(self)@, item@),
    {
        let item_span = *item.span();
        if self.items.len() == 0 {
            self.span.start = item_span.start;
        }
        self.span.end = item_span.end;
        self.items.push(item);
    }
}

impl Concat {
    /// The tree that this concatenation stands for.
    pub fn into_ast(self) -> (r: Ast)
        ensures
            r@ == concat_into_ast(self@),
    {
        let mut concat = self;
        if concat.asts.len() == 0 {
            Ast::Empty(concat.span)
        } else if concat.asts.len() == 1 {
            match concat.asts.pop() {
                Some(ast) => ast,
                None => Ast::Empty(concat.span),
            }
        } else {
            Ast::Concat(concat)
        }
    }
}

impl Alternation {
    /// The tree that this alternation stands for.
    pub fn into_ast(self) -> (r: Ast)
        ensures
            r@ == alternation_into_ast(self@),
    {
        let mut alt = self;
        if alt.asts.len() == 0 {
            Ast::Empty(alt.span)
        } else if alt.asts.len() == 1 {
            match alt.asts.pop() {
                Some(ast) => ast,
                None => Ast::Empty(alt.span),
            }
        } else {
            Ast::Alternation(alt)
        }
    }
}

impl Group {
    /// The flags that this group is opened with, if any.
    pub fn flags(&self) -> (r: Option<&Flags>)
        ensures
            match r {
                Some(flags) => group_flags(self@.kind) == Some(flags@.items),
                None => group_flags(self@.kind) is None,
            },
    {
        match &self.kind {
            GroupKind::NonCapturing(flags) => Some(flags),
            _ => None,
        }
    }
}

impl Flags {
    /// Add an item at the end of these flags. If an item of its kind is there
    /// already, then add nothing and return the index of that item.
    pub fn add_item(&mut self, item: FlagsItem) -> (r: Option<usize>)
        ensures
            final(self).span == old(self).span,
            match r {
                Some(i) => {
                    &&& find_item(old(self)@.items, item.kind) == Some(i as int)
                    &&& i < old(self)@.items.len()
                    &&& final(self)@ == old(self)@
                },
                None => {
                    &&& find_item(old(self)@.items, item.kind) is None
                    &&& final(self)@.items == old(self)@.items.push(item)
                },
            },
    {
        let mut i: usize = 0;
        while i < self.items.len()
            invariant
                *self == *old(self),
                i <= self.items@.len(),
                forall|j: int| 0 <= j < i ==> (#[trigger] self.items@[j]).kind != item.kind,
            decreases self.items@.len() - i,
        {
            if self.items[i].kind == item.kind {
                proof {
                    lemma_find_item_unique(self.items@, item.kind, i as int);
                }
                return Some(i);
            }
            i = i + 1;
        }
        proof {
            lemma_find_item(self.items@, item.kind);
        }
        self.items.push(item);
        None
    }

    /// The state that these flags give to the given flag.
    pub fn flag_state(&self, flag: Flag) -> (r: Option<bool>)
        ensures
            r == flag_state(self@.items, flag),
    {
        let mut negated = false;
        let mut i: usize = 0;
        let ghost items = self.items@;
        while i < self.items.len()
            invariant
                items == self.items@,
                i <= items.len(),
                forall|j: int|
                    0 <= j < i ==> (#[trigger] items[j]).kind != FlagsItemKind::Flag(flag),
                negated == exists|j: int|
                    0 <= j < i && (#[trigger] items[j]).kind == FlagsItemKind::Negation,
            decreases items.len() - i,
        {
            match self.items[i].kind {
                FlagsItemKind::Negation => {
                    assert(items[i as int].kind == FlagsItemKind::Negation);
                    negated = true;
                },
                FlagsItemKind::Flag(x) => {
                    if x == flag {
                        proof {
                            lemma_find_item_unique(items, FlagsItemKind::Flag(flag), i as int);
                            let front = items.take(i as int);
                            lemma_find_item(front, FlagsItemKind::Negation);
                            assert(forall|j: int| 0 <= j < i ==> #[trigger] items[j] == front[j]);
                        }
                        return Some(!negated);
                    }
                },
            }
            i = i + 1;
        }
        proof {
            lemma_find_item(items, FlagsItemKind::Flag(flag));
        }
        None
    }
}

impl ClassAsciiKind {
    /// The ASCII class of the given name, if there is one.
    pub fn from_name(name: &str) -> (r: Option<ClassAsciiKind>)
        ensures
            r == ascii_kind_of_name(name@),
    {
        let name = name.to_string();
        if name == "alnum".to_string() {
            Some(ClassAsciiKind::Alnum)
        } else if name == "alpha".to_string() {
            Some(ClassAsciiKind::Alpha)
        } else if name == "ascii".to_string() {
            Some(ClassAsciiKind::Ascii)
        } else if name == "blank".to_string() {
            Some(ClassAsciiKind::Blank)
        } else if name == "cntrl".to_string() {
            Some(ClassAsciiKind::Cntrl)
        } else if name == "digit".to_string() {
            Some(ClassAsciiKind::Digit)
        } else if name == "graph".to_string() {
            Some(ClassAsciiKind::Graph)
        } else if name == "lower".to_string() {
            Some(ClassAsciiKind::Lower)
        } else if name == "print".to_string() {
            Some(ClassAsciiKind::Print)
        } else if name == "punct".to_string() {
            Some(ClassAsciiKind::Punct)
        } else if name == "space".to_string() {
            Some(ClassAsciiKind::Space)
        } else if name == "upper".to_string() {
            Some(ClassAsciiKind::Upper)
        } else if name == "word".to_string() {
            Some(ClassAsciiKind::Word)
        } else if name == "xdigit".to_string() {
            Some(ClassAsciiKind::Xdigit)
        } else {
            None
        }
    }
}

} // verus!
