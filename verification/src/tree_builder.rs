//! Nesting of classified lines into a tree of line containers by their
//! `Indent` and `Dedent` lines.

use crate::tokens::{LineContainer, LineToken, LineType};
use vstd::prelude::*;

verus! {

/// The shape of a line container: a line, or a block of nested shapes.
pub enum Shape {
    Line(LineToken),
    Block(Seq<Shape>),
}

/// The shape of a container.
pub open spec fn shape_of(c: LineContainer) -> Shape
    decreases c, 1nat,
{
    match c {
        LineContainer::Token(t) => Shape::Line(t),
        LineContainer::Container { children } => {
            proof {
                assert(decreases_to!(children => children@));
            }
            Shape::Block(shapes_of(children@))
        },
    }
}

/// The shapes of a list of containers, one per container.
pub open spec fn shapes_of(cs: Seq<LineContainer>) -> Seq<Shape>
    decreases cs, 0nat,
{
    if cs.len() == 0 {
        Seq::empty()
    } else {
        shapes_of(cs.drop_last()).push(shape_of(cs.last()))
    }
}

/// Appending a container appends its shape.
pub proof fn lemma_shapes_of_push(cs: Seq<LineContainer>, c: LineContainer)
    ensures
        shapes_of(cs.push(c)) == shapes_of(cs).push(shape_of(c)),
{
    assert(cs.push(c).drop_last() =~= cs);
}

/// The shapes of two lists joined are the shapes of each, joined.
pub proof fn lemma_shapes_of_concat(a: Seq<LineContainer>, b: Seq<LineContainer>)
    ensures
        shapes_of(a + b) == shapes_of(a) + shapes_of(b),
    decreases b.len(),
{
    if b.len() == 0 {
        assert(a + b =~= a);
        assert(shapes_of(a) + shapes_of(b) =~= shapes_of(a));
    } else {
        let bl = b.drop_last();
        lemma_shapes_of_concat(a, bl);
        assert((a + b).drop_last() =~= a + bl);
        assert((a + b).last() == b.last());
        assert(shapes_of(a) + shapes_of(b) =~= (shapes_of(a) + shapes_of(bl)).push(
            shape_of(b.last()),
        ));
    }
}

/// How many levels are open after the given lines: one per `Indent` line,
/// minus one per `Dedent` line.
pub open spec fn line_depth(lts: Seq<LineToken>) -> int
    decreases lts.len(),
{
    if lts.len() == 0 {
        0
    } else {
        line_depth(lts.drop_last()) + if lts.last().line_type == LineType::Indent {
            1int
        } else if lts.last().line_type == LineType::Dedent {
            -1int
        } else {
            0int
        }
    }
}

/// Every `Dedent` line closes a level that an earlier `Indent` line opened.
pub open spec fn dedent_lines_matched(lts: Seq<LineToken>) -> bool {
    forall|k: int|
        0 <= k < lts.len() && (#[trigger] lts[k]).line_type == LineType::Dedent ==> line_depth(
            lts.take(k),
        ) > 0
}

/// One step of the level stack: an `Indent` line opens a new empty level; a
/// `Dedent` line closes the innermost level and hands its shapes to the
/// enclosing level, into the block that ends it if there is one, else as a
/// new block after its last line; any other line joins the innermost level.
pub open spec fn tree_step(st: Seq<Seq<Shape>>, lt: LineToken) -> Seq<Seq<Shape>> {
    if lt.line_type == LineType::Indent {
        st.push(Seq::empty())
    } else if lt.line_type == LineType::Dedent {
        let children = st.last();
        let rest = st.drop_last();
        let parent = rest.last();
        let new_parent = if parent.len() > 0 && parent.last() is Block {
            parent.update(parent.len() - 1, Shape::Block(parent.last()->Block_0 + children))
        } else {
            parent.push(Shape::Block(children))
        };
        rest.update(rest.len() - 1, new_parent)
    } else {
        st.update(st.len() - 1, st.last().push(Shape::Line(lt)))
    }
}

/// The level stack after the given lines, starting from one empty level.
pub open spec fn tree_run(lts: Seq<LineToken>) -> Seq<Seq<Shape>>
    decreases lts.len(),
{
    if lts.len() == 0 {
        seq![Seq::empty()]
    } else {
        tree_step(tree_run(lts.drop_last()), lts.last())
    }
}

/// The shapes built from the lines: the innermost open level once all lines
/// are processed (the root level when every `Indent` was closed).
pub open spec fn tree_result(lts: Seq<LineToken>) -> Seq<Shape> {
    tree_run(lts).last()
}

/// The stack always has one level more than the number of open levels.
pub proof fn lemma_tree_run_len(lts: Seq<LineToken>)
    requires
        dedent_lines_matched(lts),
    ensures
        tree_run(lts).len() == 1 + line_depth(lts),
        line_depth(lts) >= 0,
    decreases lts.len(),
{
    if lts.len() > 0 {
        let p = lts.drop_last();
        assert forall|k: int|
            0 <= k < p.len() && (#[trigger] p[k]).line_type == LineType::Dedent implies line_depth(
            p.take(k),
        ) > 0 by {
            assert(p.take(k) =~= lts.take(k));
            assert(lts[k] == p[k]);
        }
        lemma_tree_run_len(p);
        if lts.last().line_type == LineType::Dedent {
            assert(lts.take(lts.len() - 1) =~= p);
            assert(lts[lts.len() - 1] == lts.last());
        }
    }
}

/// The shapes of a stack of levels.
pub open spec fn stack_shapes(st: Seq<Vec<LineContainer>>) -> Seq<Seq<Shape>> {
    Seq::new(st.len(), |i: int| shapes_of(st[i]@))
}

/// Build the container tree of classified lines: a root container holding
/// the lines, each run between an `Indent` line and its `Dedent` line nested
/// in a container of its own.
pub fn build_line_container(line_tokens: Vec<LineToken>) -> (r: LineContainer)
    requires
        dedent_lines_matched(line_tokens@),
    ensures
        shape_of(r) == Shape::Block(tree_result(line_tokens@)),
{
    let children = build_hierarchy(line_tokens);
    let r = LineContainer::Container { children };
    proof {
        assert(decreases_to!(children => children@));
    }
    r
}

/// Build the nested containers of a list of classified lines.
pub fn build_hierarchy(line_tokens: Vec<LineToken>) -> (r: Vec<LineContainer>)
    requires
        dedent_lines_matched(line_tokens@),
    ensures
        shapes_of(r@) == tree_result(line_tokens@),
{
    let ghost lts = line_tokens@;
    let n = line_tokens.len();
    let mut stack: Vec<Vec<LineContainer>> = Vec::new();
    stack.push(Vec::new());
    proof {
        assert(lts.take(0) =~= Seq::<LineToken>::empty());
        assert(stack_shapes(stack@) =~= tree_run(lts.take(0)));
    }
    let mut i: usize = 0;
    for line_token in it: line_tokens.into_iter()
        invariant
            i == it.index(),
            it.seq() == lts,
            n == lts.len(),
            i <= n,
            dedent_lines_matched(lts),
            stack_shapes(stack@) == tree_run(lts.take(i as int)),
    {
        let ghost before = stack_shapes(stack@);
        let ghost lt = line_token;
        proof {
            assert(lts[i as int] == lt);
            assert(lts.take(i + 1).drop_last() =~= lts.take(i as int));
            assert(lts.take(i + 1).last() == lt);
            assert(tree_run(lts.take(i + 1)) == tree_step(before, lt));
            let p = lts.take(i as int);
            assert forall|k: int|
                0 <= k < p.len() && (#[trigger] p[k]).line_type == LineType::Dedent implies line_depth(
                p.take(k),
            ) > 0 by {
                assert(p.take(k) =~= lts.take(k));
                assert(lts[k] == p[k]);
            }
            lemma_tree_run_len(p);
            assert(stack@.len() == before.len());
        }
        match line_token.line_type {
            LineType::Indent => {
                stack.push(Vec::new());
                proof {
                    assert(stack_shapes(stack@) =~= before.push(Seq::empty()));
                }
            },
            LineType::Dedent => {
                proof {
                    assert(line_depth(lts.take(i as int)) > 0);
                    assert(stack@.len() >= 2);
                }
                let mut children = stack.pop().unwrap();
                let mut parent_level = stack.pop().unwrap();
                let ghost rest = before.drop_last();
                let ghost ch = children@;
                let ghost pl0 = parent_level@;
                proof {
                    assert(shapes_of(ch) == before.last());
                    assert(shapes_of(pl0) == rest.last());
                }
                if parent_level.len() > 0 {
                    let last = parent_level.pop().unwrap();
                    let ghost pl = parent_level@;
                    proof {
                        assert(pl0 =~= pl.push(last));
                        lemma_shapes_of_push(pl, last);
                    }
                    match last {
                        LineContainer::Container { children: existing } => {
                            let mut grown = existing;
                            let ghost ex = grown@;
                            grown.append(&mut children);
                            let c = LineContainer::Container { children: grown };
                            proof {
                                assert(grown@ == ex + ch);
                                lemma_shapes_of_concat(ex, ch);
                                assert(shape_of(c) == Shape::Block(shapes_of(ex) + shapes_of(ch)));
                                lemma_shapes_of_push(pl, c);
                                assert(shapes_of(pl.push(c)) =~= rest.last().update(
                                    rest.last().len() - 1,
                                    Shape::Block(rest.last().last()->Block_0 + before.last()),
                                ));
                            }
                            parent_level.push(c);
                        },
                        LineContainer::Token(t) => {
                            let c = LineContainer::Container { children };
                            let tok = LineContainer::Token(t);
                            parent_level.push(tok);
                            proof {
                                assert(shape_of(c) == Shape::Block(shapes_of(ch)));
                                lemma_shapes_of_push(pl.push(tok), c);
                            }
                            parent_level.push(c);
                        },
                    }
                } else {
                    let c = LineContainer::Container { children };
                    proof {
                        assert(shape_of(c) == Shape::Block(shapes_of(ch)));
                        lemma_shapes_of_push(pl0, c);
                    }
                    parent_level.push(c);
                }
                stack.push(parent_level);
                proof {
                    assert(stack_shapes(stack@) =~= tree_step(before, lt));
                }
            },
            _ => {
                let mut top = stack.pop().unwrap();
                let ghost tl = top@;
                let c = LineContainer::Token(line_token);
                top.push(c);
                stack.push(top);
                proof {
                    lemma_shapes_of_push(tl, c);
                    assert(stack_shapes(stack@) =~= tree_step(before, lt));
                }
            },
        }
        i = i + 1;
    }
    proof {
        assert(lts.take(n as int) =~= lts);
        lemma_tree_run_len(lts);
    }
    stack.pop().unwrap()
}


/// The lines of a shape, in document order.
pub open spec fn shape_lines(sh: Shape) -> Seq<LineToken>
    decreases sh, 1nat,
{
    match sh {
        Shape::Line(t) => seq![t],
        Shape::Block(cs) => shapes_lines(cs),
    }
}

/// The lines of a list of shapes, one shape after the other.
pub open spec fn shapes_lines(ss: Seq<Shape>) -> Seq<LineToken>
    decreases ss, 0nat,
{
    if ss.len() == 0 {
        Seq::empty()
    } else {
        shapes_lines(ss.drop_last()) + shape_lines(ss.last())
    }
}

/// The lines of the levels of a stack, outermost level first.
pub open spec fn stack_lines(st: Seq<Seq<Shape>>) -> Seq<LineToken>
    decreases st.len(),
{
    if st.len() == 0 {
        Seq::empty()
    } else {
        stack_lines(st.drop_last()) + shapes_lines(st.last())
    }
}

/// The lines that are not `Indent` or `Dedent` lines, in order.
pub open spec fn content_lines(lts: Seq<LineToken>) -> Seq<LineToken>
    decreases lts.len(),
{
    if lts.len() == 0 {
        Seq::empty()
    } else if lts.last().line_type == LineType::Indent || lts.last().line_type == LineType::Dedent {
        content_lines(lts.drop_last())
    } else {
        content_lines(lts.drop_last()).push(lts.last())
    }
}

/// The lines of two lists of shapes joined are those of each, joined.
proof fn lemma_shapes_lines_concat(a: Seq<Shape>, b: Seq<Shape>)
    ensures
        shapes_lines(a + b) == shapes_lines(a) + shapes_lines(b),
    decreases b.len(),
{
    if b.len() == 0 {
        assert(a + b =~= a);
        assert(shapes_lines(a) + shapes_lines(b) =~= shapes_lines(a));
    } else {
        lemma_shapes_lines_concat(a, b.drop_last());
        assert((a + b).drop_last() =~= a + b.drop_last());
        assert((a + b).last() == b.last());
        assert(shapes_lines(a) + shapes_lines(b) =~= shapes_lines(a) + shapes_lines(b.drop_last())
            + shape_lines(b.last()));
    }
}

/// Replacing the last shape of a list replaces its lines.
proof fn lemma_shapes_lines_update_last(ss: Seq<Shape>, x: Shape)
    requires
        ss.len() > 0,
    ensures
        shapes_lines(ss.update(ss.len() - 1, x)) == shapes_lines(ss.drop_last()) + shape_lines(x),
{
    assert(ss.update(ss.len() - 1, x).drop_last() =~= ss.drop_last());
}

/// Replacing the last level of a stack replaces its lines.
proof fn lemma_stack_lines_update_last(st: Seq<Seq<Shape>>, x: Seq<Shape>)
    requires
        st.len() > 0,
    ensures
        stack_lines(st.update(st.len() - 1, x)) == stack_lines(st.drop_last()) + shapes_lines(x),
{
    assert(st.update(st.len() - 1, x).drop_last() =~= st.drop_last());
}

/// The level stack holds every line seen so far apart from the `Indent` and
/// `Dedent` lines, in order.
proof fn lemma_tree_run_lines(lts: Seq<LineToken>)
    requires
        dedent_lines_matched(lts),
    ensures
        stack_lines(tree_run(lts)) == content_lines(lts),
    decreases lts.len(),
{
    if lts.len() == 0 {
        assert(stack_lines(seq![Seq::<Shape>::empty()]) =~= Seq::<LineToken>::empty()) by {
            assert(seq![Seq::<Shape>::empty()].drop_last() =~= Seq::<Seq<Shape>>::empty());
            assert(stack_lines(Seq::<Seq<Shape>>::empty()) =~= Seq::<LineToken>::empty());
            assert(shapes_lines(Seq::<Shape>::empty()) =~= Seq::<LineToken>::empty());
        }
    } else {
        let p = lts.drop_last();
        let lt = lts.last();
        assert forall|k: int|
            0 <= k < p.len() && (#[trigger] p[k]).line_type == LineType::Dedent implies line_depth(
            p.take(k),
        ) > 0 by {
            assert(p.take(k) =~= lts.take(k));
            assert(lts[k] == p[k]);
        }
        lemma_tree_run_lines(p);
        lemma_tree_run_len(p);
        let st = tree_run(p);
        if lt.line_type == LineType::Indent {
            assert(st.push(Seq::empty()).drop_last() =~= st);
            assert(stack_lines(st.push(Seq::empty())) =~= stack_lines(st));
        } else if lt.line_type == LineType::Dedent {
            assert(lts.take(lts.len() - 1) =~= p);
            assert(lts[lts.len() - 1] == lt);
            let children = st.last();
            let rest = st.drop_last();
            let parent = rest.last();
            let new_parent = if parent.len() > 0 && parent.last() is Block {
                parent.update(parent.len() - 1, Shape::Block(parent.last()->Block_0 + children))
            } else {
                parent.push(Shape::Block(children))
            };
            if parent.len() > 0 && parent.last() is Block {
                lemma_shapes_lines_update_last(parent, Shape::Block(parent.last()->Block_0 + children));
                lemma_shapes_lines_concat(parent.last()->Block_0, children);
                assert(shape_lines(parent.last()) == shapes_lines(parent.last()->Block_0));
                assert(shape_lines(Shape::Block(parent.last()->Block_0 + children)) == shapes_lines(
                    parent.last()->Block_0 + children,
                ));
                assert(shapes_lines(parent) == shapes_lines(parent.drop_last()) + shapes_lines(
                    parent.last()->Block_0,
                ));
            } else {
                assert(parent.push(Shape::Block(children)).drop_last() =~= parent);
                assert(shape_lines(Shape::Block(children)) == shapes_lines(children));
            }
            assert(shapes_lines(new_parent) =~= shapes_lines(parent) + shapes_lines(children));
            lemma_stack_lines_update_last(rest, new_parent);
            assert(stack_lines(rest) == stack_lines(rest.drop_last()) + shapes_lines(parent));
            assert(stack_lines(st) == stack_lines(rest) + shapes_lines(children));
            assert(stack_lines(tree_step(st, lt)) =~= stack_lines(st));
        } else {
            let top = st.last();
            lemma_stack_lines_update_last(st, top.push(Shape::Line(lt)));
            assert(top.push(Shape::Line(lt)).drop_last() =~= top);
            assert(shape_lines(Shape::Line(lt)) =~= seq![lt]);
            assert(stack_lines(tree_step(st, lt)) =~= stack_lines(st).push(lt));
        }
    }
}

/// Building the tree keeps every line: when every `Indent` line is closed by
/// a `Dedent` line, the lines of the built tree, in document order, are the
/// input lines without the `Indent` and `Dedent` lines.
pub proof fn lemma_tree_keeps_lines(lts: Seq<LineToken>)
    requires
        dedent_lines_matched(lts),
        line_depth(lts) == 0,
    ensures
        shapes_lines(tree_result(lts)) == content_lines(lts),
{
    lemma_tree_run_lines(lts);
    lemma_tree_run_len(lts);
    let st = tree_run(lts);
    assert(st.drop_last() =~= Seq::<Seq<Shape>>::empty());
    assert(stack_lines(Seq::<Seq<Shape>>::empty()) =~= Seq::<LineToken>::empty());
    assert(stack_lines(st) =~= shapes_lines(st.last()));
}

} // verus!
