//! Projections: which attributes of a record a read returns.

use crate::record::Record;
use crate::text::{
    contains_name, join_names, joined, segments, trim_bounds, trimmed, views, without_repeats,
};
use vstd::prelude::*;

verus! {

/// The attributes that a read asks for.
#[derive(Debug, PartialEq, Eq)]
pub enum Projection {
    /// Every attribute.
    All,
    /// The attributes with these names.
    Only(Vec<String>),
}

/// What a projection asks for, as a value of the specification.
pub enum ProjectionView {
    All,
    Only(Seq<Seq<char>>),
}

impl ProjectionView {
    /// Whether the projection lets an attribute of this name through.
    pub open spec fn admits(self, name: Seq<char>) -> bool {
        match self {
            ProjectionView::All => true,
            ProjectionView::Only(names) => names.contains(name),
        }
    }
}

impl View for Projection {
    type V = ProjectionView;

    open spec fn view(&self) -> ProjectionView {
        match self {
            Projection::All => ProjectionView::All,
            Projection::Only(names) => ProjectionView::Only(views(names@)),
        }
    }
}

/// What is left of `row` under `projection`.
pub open spec fn projected(row: Map<Seq<char>, Seq<char>>, projection: ProjectionView) -> Map<
    Seq<char>,
    Seq<char>,
> {
    match projection {
        ProjectionView::All => row,
        ProjectionView::Only(names) => row.restrict(names.to_set()),
    }
}

/// Each of `pieces` without the spaces around it.
pub open spec fn each_trimmed(pieces: Seq<Seq<char>>) -> Seq<Seq<char>> {
    pieces.map_values(|piece: Seq<char>| trimmed(piece))
}

/// The names that a comma-separated list gives, in order, repetitions included.
pub open spec fn listed_names(text: Seq<char>) -> Seq<Seq<char>> {
    each_trimmed(segments(text))
}

/// Whether none of `names` is empty.
pub open spec fn all_named(names: Seq<Seq<char>>) -> bool {
    forall|i: int| 0 <= i < names.len() ==> (#[trigger] names[i]).len() > 0
}

/// The empty list holds one name, which is empty.
pub proof fn lemma_empty_list(text: Seq<char>)
    requires
        text.len() == 0,
    ensures
        !all_named(listed_names(text)),
{
    assert(segments(text) =~= seq![Seq::<char>::empty()]);
    assert(trimmed(Seq::<char>::empty()) =~= Seq::<char>::empty());
    assert(listed_names(text)[0].len() == 0);
}

/// Takes the piece `text[from..to]` into `names`, unless its name is there
/// already, and says whether the piece holds a name at all.
fn take_piece(text: &str, from: usize, to: usize, names: &mut Vec<String>) -> (named: bool)
    requires
        from <= to <= text@.len(),
    ensures
        named == (trimmed(text@.subrange(from as int, to as int)).len() > 0),
        views(final(names)@) == if views(old(names)@).contains(
            trimmed(text@.subrange(from as int, to as int)),
        ) {
            views(old(names)@)
        } else {
            views(old(names)@).push(trimmed(text@.subrange(from as int, to as int)))
        },
{
    let (a, b) = trim_bounds(text, from, to);
    let piece = text.substring_char(a, b);
    let ghost before = views(names@);
    if !contains_name(names, piece) {
        names.push(piece.to_owned());
        assert(views(names@) =~= before.push(piece@));
    }
    a < b
}

impl Projection {
    /// Reads a comma-separated list of attribute names. Spaces around a name
    /// do not count, a name that is listed again is taken once, and a list
    /// with an empty name is refused.
    pub fn parse(text: &str) -> (parsed: Option<Projection>)
        ensures
            parsed is Some <==> all_named(listed_names(text@)),
            parsed is Some ==> parsed.unwrap()@ == ProjectionView::Only(
                without_repeats(listed_names(text@)),
            ),
    {
        let n = text.unicode_len();
        let mut names: Vec<String> = Vec::new();
        let mut valid = true;
        let mut start: usize = 0;
        let mut i: usize = 0;
        let ghost mut done: Seq<Seq<char>> = Seq::empty();
        proof {
            assert(text@.take(0) =~= Seq::<char>::empty());
            assert(text@.subrange(0, 0) =~= Seq::<char>::empty());
            assert(segments(text@.take(0)) =~= done.push(text@.subrange(0, 0)));
            assert(each_trimmed(done) =~= Seq::<Seq<char>>::empty());
        }
        while i < n
            invariant
                n == text@.len(),
                start <= i <= n,
                segments(text@.take(i as int)) == done.push(text@.subrange(start as int, i as int)),
                views(names@) == without_repeats(each_trimmed(done)),
                valid == all_named(each_trimmed(done)),
            decreases n - i,
        {
            let c = text.get_char(i);
            proof {
                let longer = text@.take(i + 1);
                assert(longer.drop_last() =~= text@.take(i as int));
                assert(longer.last() == c);
                let current = text@.subrange(start as int, i as int);
                assert(done.push(current).last() == current);
                assert(done.push(current).drop_last() =~= done);
                assert(current.push(c) =~= text@.subrange(start as int, i + 1));
                assert(text@.subrange(i + 1, i + 1) =~= Seq::<char>::empty());
            }
            if c == ',' {
                let named = take_piece(text, start, i, &mut names);
                proof {
                    let current = text@.subrange(start as int, i as int);
                    let longer = done.push(current);
                    assert(each_trimmed(longer) =~= each_trimmed(done).push(trimmed(current)));
                    assert(each_trimmed(longer).drop_last() =~= each_trimmed(done));
                    assert(all_named(each_trimmed(longer)) == (all_named(each_trimmed(done))
                        && trimmed(current).len() > 0)) by {
                        if all_named(each_trimmed(longer)) {
                            assert(each_trimmed(longer)[done.len() as int].len() > 0);
                            assert forall|k: int| 0 <= k < done.len() implies (
                            #[trigger] each_trimmed(done)[k]).len() > 0 by {
                                assert(each_trimmed(longer)[k] == each_trimmed(done)[k]);
                            }
                        }
                    }
                    done = longer;
                }
                valid = valid && named;
                start = i + 1;
            }
            i += 1;
        }
        let named = take_piece(text, start, n, &mut names);
        proof {
            assert(text@.take(n as int) =~= text@);
            let current = text@.subrange(start as int, n as int);
            let longer = done.push(current);
            assert(each_trimmed(longer) =~= each_trimmed(done).push(trimmed(current)));
            assert(each_trimmed(longer).drop_last() =~= each_trimmed(done));
            assert(all_named(each_trimmed(longer)) == (all_named(each_trimmed(done)) && trimmed(
                current,
            ).len() > 0)) by {
                if all_named(each_trimmed(longer)) {
                    assert(each_trimmed(longer)[done.len() as int].len() > 0);
                    assert forall|k: int| 0 <= k < done.len() implies (#[trigger] each_trimmed(
                        done,
                    )[k]).len() > 0 by {
                        assert(each_trimmed(longer)[k] == each_trimmed(done)[k]);
                    }
                }
            }
        }
        if valid && named {
            Some(Projection::Only(names))
        } else {
            None
        }
    }

    /// Whether the projection lets an attribute of this name through.
    pub fn admits(&self, name: &str) -> (admitted: bool)
        ensures
            admitted == self@.admits(name@),
    {
        match self {
            Projection::All => true,
            Projection::Only(names) => contains_name(names, name),
        }
    }

    /// The projection expression that the backing engine takes: the names
    /// joined by commas, or none where every attribute is asked for.
    pub fn expression(&self) -> (expression: Option<String>)
        ensures
            match self@ {
                ProjectionView::All => expression is None,
                ProjectionView::Only(names) => expression is Some && expression.unwrap()@
                    == joined(names),
            },
    {
        match self {
            Projection::All => None,
            Projection::Only(names) => Some(join_names(names)),
        }
    }

    /// What is left of `record` under the projection.
    pub fn apply(&self, record: &Record) -> (kept: Record)
        ensures
            kept@ == projected(record@, self@),
    {
        match self {
            Projection::All => record.clone(),
            Projection::Only(names) => record.restrict(names),
        }
    }
}

impl Clone for Projection {
    fn clone(&self) -> (copy: Projection)
        ensures
            copy@ == self@,
    {
        match self {
            Projection::All => Projection::All,
            Projection::Only(names) => {
                let mut copied: Vec<String> = Vec::new();
                let mut i: usize = 0;
                while i < names.len()
                    invariant
                        i <= names@.len(),
                        views(copied@) == views(names@).take(i as int),
                    decreases names@.len() - i,
                {
                    let ghost before = views(copied@);
                    copied.push(names[i].clone());
                    assert(views(copied@) =~= before.push(names@[i as int]@));
                    assert(views(names@).take(i + 1) =~= views(names@).take(i as int).push(
                        names@[i as int]@,
                    ));
                    i += 1;
                }
                assert(views(names@).take(names@.len() as int) =~= views(names@));
                Projection::Only(copied)
            },
        }
    }
}

/// Whether a name can stand in a list as it is: it is not empty, holds no
/// comma, and neither begins nor ends with a space.
pub open spec fn listable(name: Seq<char>) -> bool {
    name.len() > 0 && !name.contains(',') && name[0] != ' ' && name.last() != ' '
}

/// Text without a comma goes into the last piece.
pub proof fn lemma_segments_grow(before: Seq<char>, piece: Seq<char>)
    requires
        !piece.contains(','),
    ensures
        segments(before).len() >= 1,
        segments(before + piece) == segments(before).drop_last().push(
            segments(before).last() + piece,
        ),
    decreases piece.len(),
{
    lemma_segments_count(before);
    let pieces = segments(before);
    if piece.len() == 0 {
        assert(before + piece =~= before);
        assert(pieces.last() + piece =~= pieces.last());
        assert(pieces.drop_last().push(pieces.last()) =~= pieces);
    } else {
        let shorter = piece.drop_last();
        assert forall|i: int| 0 <= i < shorter.len() implies shorter[i] != ',' by {
            assert(piece[i] == shorter[i]);
            assert(piece.contains(piece[i]));
        }
        lemma_segments_grow(before, shorter);
        assert((before + piece).drop_last() =~= before + shorter);
        assert((before + piece).last() == piece.last());
        assert(piece.contains(piece.last()));
        let grown = pieces.drop_last().push(pieces.last() + shorter);
        assert(grown.drop_last() =~= pieces.drop_last());
        assert((pieces.last() + shorter).push(piece.last()) =~= pieces.last() + piece);
    }
}

/// A text has at least one piece.
pub proof fn lemma_segments_count(text: Seq<char>)
    ensures
        segments(text).len() >= 1,
    decreases text.len(),
{
    if text.len() > 0 {
        lemma_segments_count(text.drop_last());
    }
}

/// The pieces of a list of names without commas are the names.
pub proof fn lemma_segments_of_joined(names: Seq<Seq<char>>)
    requires
        names.len() > 0,
        forall|i: int| 0 <= i < names.len() ==> !(#[trigger] names[i]).contains(','),
    ensures
        segments(joined(names)) == names,
    decreases names.len(),
{
    let nothing = Seq::<char>::empty();
    if names.len() == 1 {
        lemma_segments_grow(nothing, names[0]);
        assert(nothing + names[0] =~= names[0]);
        assert(segments(nothing) =~= seq![nothing]);
        assert(seq![nothing].drop_last().push(nothing + names[0]) =~= names);
    } else {
        let front = names.drop_last();
        assert forall|i: int| 0 <= i < front.len() implies !(#[trigger] front[i]).contains(
            ',',
        ) by {
            assert(front[i] == names[i]);
        }
        lemma_segments_of_joined(front);
        let head = joined(front) + seq![','];
        assert(head.drop_last() =~= joined(front));
        assert(head.last() == ',');
        assert(segments(head) == front.push(nothing));
        lemma_segments_grow(head, names.last());
        assert(front.push(nothing).drop_last() =~= front);
        assert(nothing + names.last() =~= names.last());
        assert(front.push(names.last()) =~= names);
    }
}

/// Items that differ from each other are all kept.
pub proof fn lemma_without_repeats_of_distinct(items: Seq<Seq<char>>)
    requires
        forall|i: int, j: int| 0 <= i < j < items.len() ==> items[i] != items[j],
    ensures
        without_repeats(items) == items,
    decreases items.len(),
{
    if items.len() > 0 {
        let front = items.drop_last();
        assert forall|i: int, j: int| 0 <= i < j < front.len() implies front[i] != front[j] by {
            assert(front[i] == items[i]);
            assert(front[j] == items[j]);
        }
        lemma_without_repeats_of_distinct(front);
        if front.contains(items.last()) {
            let i = choose|i: int| 0 <= i < front.len() && front[i] == items.last();
            assert(items[i] == items[items.len() - 1]);
        }
        assert(front.push(items.last()) =~= items);
    }
}

/// The expression of a projection is read back as the projection: a list of
/// listable names that differ from each other, joined by commas, gives those
/// names again.
pub proof fn expression_reads_back(names: Seq<Seq<char>>)
    requires
        names.len() > 0,
        forall|i: int| 0 <= i < names.len() ==> listable(#[trigger] names[i]),
        forall|i: int, j: int| 0 <= i < j < names.len() ==> names[i] != names[j],
    ensures
        all_named(listed_names(joined(names))),
        without_repeats(listed_names(joined(names))) == names,
{
    lemma_segments_of_joined(names);
    assert forall|i: int| 0 <= i < names.len() implies trimmed(#[trigger] names[i])
        == names[i] by {
        assert(listable(names[i]));
    }
    assert(listed_names(joined(names)) =~= names);
    lemma_without_repeats_of_distinct(names);
}

} // verus!
