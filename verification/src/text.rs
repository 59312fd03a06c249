//! Helpers on strings: comparing, and lists of names separated by commas.

use vstd::prelude::*;

verus! {

/// Whether two string slices hold the same characters.
pub fn text_eq(a: &str, b: &str) -> (same: bool)
    ensures
        same == (a@ == b@),
{
    let left = a.to_owned();
    let right = b.to_owned();
    left == right
}

/// The views of a sequence of values, element by element.
pub open spec fn views<T: View>(items: Seq<T>) -> Seq<T::V> {
    items.map_values(|item: T| item@)
}

/// Optional text as a value of the specification.
pub open spec fn text_view(text: Option<String>) -> Option<Seq<char>> {
    match text {
        Some(text) => Some(text@),
        None => None,
    }
}

/// The pieces of `text` between its commas, in order; always at least one.
pub open spec fn segments(text: Seq<char>) -> Seq<Seq<char>>
    decreases text.len(),
{
    if text.len() == 0 {
        seq![Seq::<char>::empty()]
    } else {
        let before = segments(text.drop_last());
        if text.last() == ',' {
            before.push(Seq::<char>::empty())
        } else {
            before.drop_last().push(before.last().push(text.last()))
        }
    }
}

/// `text` without its leading spaces.
pub open spec fn trim_start(text: Seq<char>) -> Seq<char>
    decreases text.len(),
{
    if text.len() > 0 && text[0] == ' ' {
        trim_start(text.subrange(1, text.len() as int))
    } else {
        text
    }
}

/// `text` without its trailing spaces.
pub open spec fn trim_end(text: Seq<char>) -> Seq<char>
    decreases text.len(),
{
    if text.len() > 0 && text.last() == ' ' {
        trim_end(text.drop_last())
    } else {
        text
    }
}

/// `text` without the spaces around it.
pub open spec fn trimmed(text: Seq<char>) -> Seq<char> {
    trim_end(trim_start(text))
}

/// `names` joined by commas.
pub open spec fn joined(names: Seq<Seq<char>>) -> Seq<char>
    decreases names.len(),
{
    if names.len() == 0 {
        Seq::<char>::empty()
    } else if names.len() == 1 {
        names[0]
    } else {
        joined(names.drop_last()) + seq![','] + names.last()
    }
}

/// `items` with every repetition of an earlier item left out.
pub open spec fn without_repeats(items: Seq<Seq<char>>) -> Seq<Seq<char>>
    decreases items.len(),
{
    if items.len() == 0 {
        Seq::<Seq<char>>::empty()
    } else {
        let before = without_repeats(items.drop_last());
        if before.contains(items.last()) {
            before
        } else {
            before.push(items.last())
        }
    }
}

/// The bounds of the part of `text[from..to]` that is left when the spaces
/// around it are taken away.
pub(crate) fn trim_bounds(text: &str, from: usize, to: usize) -> (bounds: (usize, usize))
    requires
        from <= to <= text@.len(),
    ensures
        from <= bounds.0 <= bounds.1 <= to,
        text@.subrange(bounds.0 as int, bounds.1 as int) == trimmed(
            text@.subrange(from as int, to as int),
        ),
        bounds.0 == bounds.1 ==> bounds.1 == to,
{
    let mut a: usize = from;
    while a < to && text.get_char(a) == ' '
        invariant
            from <= a <= to <= text@.len(),
            trim_start(text@.subrange(from as int, to as int)) == trim_start(
                text@.subrange(a as int, to as int),
            ),
        decreases to - a,
    {
        proof {
            let rest = text@.subrange(a as int, to as int);
            assert(rest[0] == ' ');
            assert(rest.subrange(1, rest.len() as int) =~= text@.subrange(a + 1, to as int));
        }
        a += 1;
    }
    proof {
        let rest = text@.subrange(a as int, to as int);
        if a < to {
            assert(rest[0] == text@[a as int]);
        }
        assert(trim_start(rest) == rest);
    }
    let mut b: usize = to;
    while a < b && text.get_char(b - 1) == ' '
        invariant
            a <= b <= to <= text@.len(),
            a < to ==> a < b,
            a < to ==> text@[a as int] != ' ',
            trim_end(text@.subrange(a as int, to as int)) == trim_end(
                text@.subrange(a as int, b as int),
            ),
        decreases b - a,
    {
        proof {
            let rest = text@.subrange(a as int, b as int);
            assert(rest.last() == ' ');
            assert(rest.drop_last() =~= text@.subrange(a as int, b - 1));
        }
        b -= 1;
    }
    proof {
        let rest = text@.subrange(a as int, b as int);
        if a < b {
            assert(rest.last() == text@[b - 1]);
        }
        assert(trim_end(rest) == rest);
    }
    (a, b)
}

/// Whether `name` is among `names`.
pub fn contains_name(names: &Vec<String>, name: &str) -> (found: bool)
    ensures
        found == views(names@).contains(name@),
{
    let mut i: usize = 0;
    while i < names.len()
        invariant
            i <= names@.len(),
            forall|j: int| 0 <= j < i ==> views(names@)[j] != name@,
        decreases names@.len() - i,
    {
        if text_eq(names[i].as_str(), name) {
            assert(views(names@)[i as int] == name@);
            return true;
        }
        i += 1;
    }
    false
}

/// `names` joined by commas.
pub fn join_names(names: &Vec<String>) -> (text: String)
    ensures
        text@ == joined(views(names@)),
{
    let mut text = String::new();
    let mut i: usize = 0;
    while i < names.len()
        invariant
            i <= names@.len(),
            text@ == joined(views(names@).take(i as int)),
        decreases names@.len() - i,
    {
        proof {
            reveal_strlit(",");
            let done = views(names@).take(i as int);
            let next = views(names@).take(i + 1);
            assert(next.drop_last() =~= done);
            assert(next.last() == names@[i as int]@);
            assert(","@ =~= seq![',']);
            if i == 0 {
                assert(done.len() == 0);
                assert(joined(next) == names@[i as int]@);
                assert(text@ + names@[i as int]@ =~= names@[i as int]@);
            }
        }
        if i > 0 {
            text.append(",");
        }
        text.append(names[i].as_str());
        i += 1;
    }
    proof {
        assert(views(names@).take(names@.len() as int) =~= views(names@));
    }
    text
}

} // verus!
