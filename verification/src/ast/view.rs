//! The mathematical counterparts of the syntax tree's types.

use vstd::prelude::*;

use crate::ast::{
    Alternation, Assertion, Ast, CaptureName, Class, ClassAscii, ClassPerl, ClassSet,
    ClassSetBinaryOpKind, ClassSetItem, ClassSetOp, ClassSetRange, ClassSetUnion, ClassUnicode,
    ClassUnicodeKind, ClassUnicodeOpKind, Comment, Concat, Flags, FlagsItem, Group, GroupKind,
    Literal, RepetitionOp, SetFlags, Span, WithComments,
};

verus! {

/// The view of a [`Comment`].
#[verifier::ext_equal]
pub struct CommentView {
    pub span: Span,
    pub comment: Seq<char>,
}

/// The view of a [`Flags`].
#[verifier::ext_equal]
pub struct FlagsView {
    pub span: Span,
    pub items: Seq<FlagsItem>,
}

/// The view of a [`SetFlags`].
#[verifier::ext_equal]
pub struct SetFlagsView {
    pub span: Span,
    pub flags: FlagsView,
}

/// The view of a [`CaptureName`].
#[verifier::ext_equal]
pub struct CaptureNameView {
    pub span: Span,
    pub name: Seq<char>,
}

/// The view of a [`GroupKind`].
#[verifier::ext_equal]
pub enum GroupKindView {
    CaptureIndex,
    CaptureName(CaptureNameView),
    NonCapturing(FlagsView),
}

/// The view of a [`ClassUnicodeKind`].
#[verifier::ext_equal]
pub enum ClassUnicodeKindView {
    OneLetter(char),
    Named(Seq<char>),
    NamedValue { op: ClassUnicodeOpKind, name: Seq<char>, value: Seq<char> },
}

/// The view of a [`ClassUnicode`].
#[verifier::ext_equal]
pub struct ClassUnicodeView {
    pub span: Span,
    pub negated: bool,
    pub kind: ClassUnicodeKindView,
}

/// The view of a [`Class`].
#[verifier::ext_equal]
pub enum ClassView {
    Unicode(ClassUnicodeView),
    Perl(ClassPerl),
    Bracketed(ClassSetView),
}

/// The view of a [`ClassSet`].
#[verifier::ext_equal]
pub struct ClassSetView {
    pub span: Span,
    pub negated: bool,
    pub op: ClassSetOpView,
}

/// The view of a [`ClassSetOp`].
#[verifier::ext_equal]
pub enum ClassSetOpView {
    Union(ClassSetUnionView),
    BinaryOp(ClassSetBinaryOpView),
}

/// The view of a [`ClassSetUnion`].
#[verifier::ext_equal]
pub struct ClassSetUnionView {
    pub span: Span,
    pub items: Seq<ClassSetItemView>,
}

/// The view of a [`ClassSetItem`].
#[verifier::ext_equal]
pub enum ClassSetItemView {
    Literal(Literal),
    Range(ClassSetRange),
    Ascii(ClassAscii),
    Class(Box<ClassView>),
}

/// The view of a [`crate::ast::ClassSetBinaryOp`].
#[verifier::ext_equal]
pub struct ClassSetBinaryOpView {
    pub span: Span,
    pub kind: ClassSetBinaryOpKind,
    pub lhs: Box<ClassSetOpView>,
    pub rhs: Box<ClassSetOpView>,
}

/// The view of an [`Ast`].
#[verifier::ext_equal]
pub enum AstView {
    Empty(Span),
    Flags(SetFlagsView),
    Literal(Literal),
    Dot(Span),
    Assertion(Assertion),
    Class(ClassView),
    Repetition(RepetitionView),
    Group(GroupView),
    Alternation(AlternationView),
    Concat(ConcatView),
}

/// The view of a [`crate::ast::Repetition`].
#[verifier::ext_equal]
pub struct RepetitionView {
    pub span: Span,
    pub op: RepetitionOp,
    pub greedy: bool,
    pub ast: Box<AstView>,
}

/// The view of a [`Group`].
#[verifier::ext_equal]
pub struct GroupView {
    pub span: Span,
    pub kind: GroupKindView,
    pub ast: Box<AstView>,
}

/// The view of an [`Alternation`].
#[verifier::ext_equal]
pub struct AlternationView {
    pub span: Span,
    pub asts: Seq<AstView>,
}

/// The view of a [`Concat`].
#[verifier::ext_equal]
pub struct ConcatView {
    pub span: Span,
    pub asts: Seq<AstView>,
}

/// The view of a [`WithComments`].
#[verifier::ext_equal]
pub struct WithCommentsView {
    pub ast: AstView,
    pub comments: Seq<CommentView>,
}

impl View for Comment {
    type V = CommentView;

    open spec fn view(&self) -> CommentView {
        CommentView { span: self.span, comment: self.comment@ }
    }
}

/// The views of a sequence of comments.
pub open spec fn comments_view(comments: Seq<Comment>) -> Seq<CommentView> {
    Seq::new(comments.len(), |i: int| comments[i]@)
}

impl View for Flags {
    type V = FlagsView;

    open spec fn view(&self) -> FlagsView {
        FlagsView { span: self.span, items: self.items@ }
    }
}

impl View for SetFlags {
    type V = SetFlagsView;

    open spec fn view(&self) -> SetFlagsView {
        SetFlagsView { span: self.span, flags: self.flags@ }
    }
}

impl View for CaptureName {
    type V = CaptureNameView;

    open spec fn view(&self) -> CaptureNameView {
        CaptureNameView { span: self.span, name: self.name@ }
    }
}

impl View for GroupKind {
    type V = GroupKindView;

    open spec fn view(&self) -> GroupKindView {
        match *self {
            GroupKind::CaptureIndex => GroupKindView::CaptureIndex,
            GroupKind::CaptureName(name) => GroupKindView::CaptureName(name@),
            GroupKind::NonCapturing(flags) => GroupKindView::NonCapturing(flags@),
        }
    }
}

impl View for ClassUnicodeKind {
    type V = ClassUnicodeKindView;

    open spec fn view(&self) -> ClassUnicodeKindView {
        match *self {
            ClassUnicodeKind::OneLetter(c) => ClassUnicodeKindView::OneLetter(c),
            ClassUnicodeKind::Named(name) => ClassUnicodeKindView::Named(name@),
            ClassUnicodeKind::NamedValue { op, name, value } => {
                ClassUnicodeKindView::NamedValue { op, name: name@, value: value@ }
            },
        }
    }
}

impl View for ClassUnicode {
    type V = ClassUnicodeView;

    open spec fn view(&self) -> ClassUnicodeView {
        ClassUnicodeView { span: self.span, negated: self.negated, kind: self.kind@ }
    }
}

/// The view of a class.
pub open spec fn class_view(class: Class) -> ClassView
    decreases class,
{
    match class {
        Class::Unicode(cls) => ClassView::Unicode(cls@),
        Class::Perl(cls) => ClassView::Perl(cls),
        Class::Bracketed(set) => ClassView::Bracketed(
            ClassSetView { span: set.span, negated: set.negated, op: class_set_op_view(set.op) },
        ),
    }
}

/// The view of what a bracketed class consists of.
pub open spec fn class_set_op_view(op: ClassSetOp) -> ClassSetOpView
    decreases op,
{
    match op {
        ClassSetOp::Union(union) => ClassSetOpView::Union(
            ClassSetUnionView { span: union.span, items: class_set_items_view(union.items@) },
        ),
        ClassSetOp::BinaryOp(op) => ClassSetOpView::BinaryOp(
            ClassSetBinaryOpView {
                span: op.span,
                kind: op.kind,
                lhs: Box::new(class_set_op_view(*op.lhs)),
                rhs: Box::new(class_set_op_view(*op.rhs)),
            },
        ),
    }
}

/// The view of an item of a bracketed class.
pub open spec fn class_set_item_view(item: ClassSetItem) -> ClassSetItemView
    decreases item,
{
    match item {
        ClassSetItem::Literal(x) => ClassSetItemView::Literal(x),
        ClassSetItem::Range(x) => ClassSetItemView::Range(x),
        ClassSetItem::Ascii(x) => ClassSetItemView::Ascii(x),
        ClassSetItem::Class(x) => ClassSetItemView::Class(Box::new(class_view(*x))),
    }
}

/// The views of a sequence of items of a bracketed class.
pub open spec fn class_set_items_view(items: Seq<ClassSetItem>) -> Seq<ClassSetItemView>
    decreases items,
{
    Seq::new(
        items.len(),
        |i: int|
            if 0 <= i < items.len() {
                class_set_item_view(items[i])
            } else {
                arbitrary()
            },
    )
}

impl View for Class {
    type V = ClassView;

    open spec fn view(&self) -> ClassView {
        class_view(*self)
    }
}

impl View for ClassSet {
    type V = ClassSetView;

    open spec fn view(&self) -> ClassSetView {
        ClassSetView { span: self.span, negated: self.negated, op: class_set_op_view(self.op) }
    }
}

impl View for ClassSetOp {
    type V = ClassSetOpView;

    open spec fn view(&self) -> ClassSetOpView {
        class_set_op_view(*self)
    }
}

impl View for ClassSetUnion {
    type V = ClassSetUnionView;

    open spec fn view(&self) -> ClassSetUnionView {
        ClassSetUnionView { span: self.span, items: class_set_items_view(self.items@) }
    }
}

impl View for ClassSetItem {
    type V = ClassSetItemView;

    open spec fn view(&self) -> ClassSetItemView {
        class_set_item_view(*self)
    }
}

/// The view of a syntax tree.
pub open spec fn ast_view(ast: Ast) -> AstView
    decreases ast,
{
    match ast {
        Ast::Empty(span) => AstView::Empty(span),
        Ast::Flags(set) => AstView::Flags(set@),
        Ast::Literal(lit) => AstView::Literal(lit),
        Ast::Dot(span) => AstView::Dot(span),
        Ast::Assertion(x) => AstView::Assertion(x),
        Ast::Class(class) => AstView::Class(class@),
        Ast::Repetition(rep) => AstView::Repetition(
            RepetitionView {
                span: rep.span,
                op: rep.op,
                greedy: rep.greedy,
                ast: Box::new(ast_view(*rep.ast)),
            },
        ),
        Ast::Group(group) => AstView::Group(
            GroupView {
                span: group.span,
                kind: group.kind@,
                ast: Box::new(ast_view(*group.ast)),
            },
        ),
        Ast::Alternation(alt) => AstView::Alternation(
            AlternationView { span: alt.span, asts: asts_view(alt.asts@) },
        ),
        Ast::Concat(concat) => AstView::Concat(
            ConcatView { span: concat.span, asts: asts_view(concat.asts@) },
        ),
    }
}

/// The views of a sequence of syntax trees.
pub open spec fn asts_view(asts: Seq<Ast>) -> Seq<AstView>
    decreases asts,
{
    Seq::new(
        asts.len(),
        |i: int|
            if 0 <= i < asts.len() {
                ast_view(asts[i])
            } else {
                arbitrary()
            },
    )
}

impl View for Ast {
    type V = AstView;

    open spec fn view(&self) -> AstView {
        ast_view(*self)
    }
}

impl View for Group {
    type V = GroupView;

    open spec fn view(&self) -> GroupView {
        GroupView { span: self.span, kind: self.kind@, ast: Box::new(ast_view(*self.ast)) }
    }
}

impl View for Alternation {
    type V = AlternationView;

    open spec fn view(&self) -> AlternationView {
        AlternationView { span: self.span, asts: asts_view(self.asts@) }
    }
}

impl View for Concat {
    type V = ConcatView;

    open spec fn view(&self) -> ConcatView {
        ConcatView { span: self.span, asts: asts_view(self.asts@) }
    }
}

impl View for WithComments {
    type V = WithCommentsView;

    open spec fn view(&self) -> WithCommentsView {
        WithCommentsView { ast: self.ast@, comments: comments_view(self.comments@) }
    }
}

/// The views of a sequence of trees are the views of its elements.
pub broadcast proof fn lemma_asts_view(asts: Seq<Ast>)
    ensures
        #[trigger] asts_view(asts).len() == asts.len(),
        forall|i: int| 0 <= i < asts.len() ==> #[trigger] asts_view(asts)[i] == ast_view(asts[i]),
{
}

/// No trees have no views.
pub broadcast proof fn lemma_asts_view_empty(asts: Seq<Ast>)
    requires
        asts.len() == 0,
    ensures
        #[trigger] asts_view(asts) == Seq::<AstView>::empty(),
{
    assert(asts_view(asts) =~= Seq::<AstView>::empty());
}

/// The view of a pushed tree is pushed onto the views.
pub broadcast proof fn lemma_asts_view_push(asts: Seq<Ast>, ast: Ast)
    ensures
        #[trigger] asts_view(asts.push(ast)) == asts_view(asts).push(ast_view(ast)),
{
    broadcast use lemma_asts_view;

    assert(asts_view(asts.push(ast)) =~= asts_view(asts).push(ast_view(ast)));
}

/// Dropping the last tree drops its view.
pub broadcast proof fn lemma_asts_view_drop_last(asts: Seq<Ast>)
    requires
        asts.len() > 0,
    ensures
        #[trigger] asts_view(asts.drop_last()) == asts_view(asts).drop_last(),
{
    broadcast use lemma_asts_view;

    assert(asts_view(asts.drop_last()) =~= asts_view(asts).drop_last());
}

/// The views of a sequence of items are the views of its elements.
pub broadcast proof fn lemma_items_view(items: Seq<ClassSetItem>)
    ensures
        #[trigger] class_set_items_view(items).len() == items.len(),
        forall|i: int|
            0 <= i < items.len() ==> #[trigger] class_set_items_view(items)[i]
                == class_set_item_view(items[i]),
{
}

/// No items have no views.
pub broadcast proof fn lemma_items_view_empty(items: Seq<ClassSetItem>)
    requires
        items.len() == 0,
    ensures
        #[trigger] class_set_items_view(items) == Seq::<ClassSetItemView>::empty(),
{
    assert(class_set_items_view(items) =~= Seq::<ClassSetItemView>::empty());
}

/// The view of a pushed item is pushed onto the views.
pub broadcast proof fn lemma_items_view_push(items: Seq<ClassSetItem>, item: ClassSetItem)
    ensures
        #[trigger] class_set_items_view(items.push(item)) == class_set_items_view(items).push(
            class_set_item_view(item),
        ),
{
    broadcast use lemma_items_view;

    assert(class_set_items_view(items.push(item)) =~= class_set_items_view(items).push(
        class_set_item_view(item),
    ));
}

/// The view of a pushed comment is pushed onto the views.
pub broadcast proof fn lemma_comments_view_push(comments: Seq<Comment>, comment: Comment)
    ensures
        #[trigger] comments_view(comments.push(comment)) == comments_view(comments).push(comment@),
{
    assert(comments_view(comments.push(comment)) =~= comments_view(comments).push(comment@));
}

pub broadcast group group_view {
    lemma_asts_view,
    lemma_asts_view_empty,
    lemma_asts_view_push,
    lemma_asts_view_drop_last,
    lemma_items_view,
    lemma_items_view_empty,
    lemma_items_view_push,
    lemma_comments_view_push,
}

} // verus!
