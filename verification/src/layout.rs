//! How a layout divides its region among its children, and how it shows
//! itself in a repr.

use vstd::prelude::*;
use crate::chars::push_char;
use crate::numfmt::{decimal, push_decimal, push_str};
use crate::textops::total;

verus! {

/// How a layout splits its region: side by side, or stacked.
#[derive(Clone, Copy, PartialEq, Eq, Debug)]
pub enum Split {
    Row,
    Column,
}

/// A rectangle of the screen.
#[derive(Clone, Copy, PartialEq, Eq, Debug)]
pub struct Region {
    pub x: usize,
    pub y: usize,
    pub width: usize,
    pub height: usize,
}

/// The child region `size` wide (a row) or high (a column), `offset` into
/// `region`.
pub open spec fn piece(split: Split, region: Region, offset: int, size: usize) -> Region {
    match split {
        Split::Row => Region { x: (region.x + offset) as usize, y: region.y, width: size, height: region.height },
        Split::Column => Region { x: region.x, y: (region.y + offset) as usize, width: region.width, height: size },
    }
}

proof fn lemma_total_push(s: Seq<usize>, v: usize)
    ensures
        total(s.push(v)) == total(s) + v,
{
    assert(s.push(v).drop_last() =~= s);
}

proof fn lemma_total_take_bound(s: Seq<usize>, i: int)
    requires
        0 <= i <= s.len(),
    ensures
        total(s.take(i)) <= total(s),
        total(s.take(i)) >= 0,
    decreases s.len() - i,
{
    if i < s.len() {
        lemma_total_take_bound(s, i + 1);
        assert(s.take(i + 1).drop_last() =~= s.take(i));
    } else {
        assert(s.take(i) =~= s);
    }
    lemma_total_nonneg(s.take(i));
}

proof fn lemma_total_nonneg(s: Seq<usize>)
    ensures
        total(s) >= 0,
    decreases s.len(),
{
    if s.len() > 0 {
        lemma_total_nonneg(s.drop_last());
    }
}

/// `Splitter.divide`: the children's regions, one after another from the
/// start of `region`, each as wide (a row) or as high (a column) as its size.
pub fn divide_region(split: Split, region: Region, sizes: &Vec<usize>) -> (r: Vec<Region>)
    requires
        match split {
            Split::Row => region.x + total(sizes@) <= usize::MAX,
            Split::Column => region.y + total(sizes@) <= usize::MAX,
        },
    ensures
        r@.len() == sizes@.len(),
        forall|i: int| 0 <= i < r@.len() ==> #[trigger] r@[i] == piece(split, region, total(sizes@.take(i)), sizes@[i]),
{
    let mut r: Vec<Region> = Vec::new();
    let mut offset: usize = 0;
    let mut i: usize = 0;
    while i < sizes.len()
        invariant
            i <= sizes@.len(),
            r@.len() == i,
            offset == total(sizes@.take(i as int)),
            match split {
                Split::Row => region.x + total(sizes@) <= usize::MAX,
                Split::Column => region.y + total(sizes@) <= usize::MAX,
            },
            forall|j: int| 0 <= j < i ==> #[trigger] r@[j] == piece(split, region, total(sizes@.take(j)), sizes@[j]),
        decreases sizes@.len() - i,
    {
        let size = sizes[i];
        proof {
            lemma_total_take_bound(sizes@, i + 1);
            assert(sizes@.take(i + 1 as int) =~= sizes@.take(i as int).push(size));
            lemma_total_push(sizes@.take(i as int), size);
        }
        let child = match split {
            Split::Row => Region { x: region.x + offset, y: region.y, width: size, height: region.height },
            Split::Column => Region { x: region.x, y: region.y + offset, width: region.width, height: size },
        };
        r.push(child);
        offset = offset + size;
        i = i + 1;
    }
    r
}

/// Side by side, each child starts where the one before it ends; stacked,
/// each starts below the one before.
pub proof fn law_regions_abut(split: Split, region: Region, sizes: Seq<usize>, i: int)
    requires
        0 <= i,
        i + 1 < sizes.len(),
        match split {
            Split::Row => region.x + total(sizes) <= usize::MAX,
            Split::Column => region.y + total(sizes) <= usize::MAX,
        },
    ensures
        ({
            let a = piece(split, region, total(sizes.take(i)), sizes[i]);
            let b = piece(split, region, total(sizes.take(i + 1)), sizes[i + 1]);
            match split {
                Split::Row => b.x == a.x + a.width && b.y == a.y,
                Split::Column => b.y == a.y + a.height && b.x == a.x,
            }
        }),
{
    assert(sizes.take(i + 1) =~= sizes.take(i).push(sizes[i]));
    lemma_total_push(sizes.take(i), sizes[i]);
    lemma_total_take_bound(sizes, i);
    lemma_total_take_bound(sizes, i + 1);
    lemma_total_take_bound(sizes, i + 2);
    lemma_total_nonneg(sizes.take(i));
    assert(sizes.take(i + 2) =~= sizes.take(i + 1).push(sizes[i + 1]));
    lemma_total_push(sizes.take(i + 1), sizes[i + 1]);
}

/// `key=N`.
pub open spec fn keyed(key: Seq<char>, n: nat) -> Seq<char> {
    key + seq!['='] + decimal(n)
}

fn keyed_text(key: &str, n: usize) -> (s: String)
    ensures
        s@ == keyed(key@, n as nat),
{
    let mut s = String::new();
    push_str(&mut s, key);
    push_char(&mut s, '=');
    push_decimal(&mut s, n as u64);
    assert(s@ =~= keyed(key@, n as nat));
    s
}

/// `Layout.__rich_repr__`'s parts: the name (given as its repr), the size
/// when fixed, and the minimum size and ratio when not 1.
pub open spec fn repr_parts_spec(name_repr: Option<Seq<char>>, size: Option<usize>, minimum_size: usize, ratio: usize) -> Seq<Seq<char>> {
    (match name_repr { Some(n) => seq![seq!['n', 'a', 'm', 'e', '='] + n], None => Seq::empty() })
        + (match size { Some(s) => seq![keyed("size"@, s as nat)], None => Seq::empty() })
        + (if minimum_size != 1 { seq![keyed("minimum_size"@, minimum_size as nat)] } else { Seq::empty() })
        + (if ratio != 1 { seq![keyed("ratio"@, ratio as nat)] } else { Seq::empty() })
}

/// `Layout.__rich_repr__`'s parts as `key=value` strings.
pub fn repr_parts(name_repr: Option<&str>, size: Option<usize>, minimum_size: usize, ratio: usize) -> (parts: Vec<String>)
    ensures
        parts@.map_values(|p: String| p@) == repr_parts_spec(
            match name_repr { Some(n) => Some(n@), None => None },
            size,
            minimum_size,
            ratio,
        ),
{
    let mut parts: Vec<String> = Vec::new();
    let ghost name_spec = match name_repr { Some(n) => Some(n@), None => None };
    if let Some(n) = name_repr {
        let mut s = String::new();
        push_str(&mut s, "name=");
        push_str(&mut s, n);
        proof {
            reveal_strlit("name=");
            assert(s@ =~= seq!['n', 'a', 'm', 'e', '='] + n@);
        }
        parts.push(s);
    }
    let ghost v1 = parts@.map_values(|p: String| p@);
    proof {
        assert(v1 =~= match name_spec { Some(n) => seq![seq!['n', 'a', 'm', 'e', '='] + n], None => Seq::<Seq<char>>::empty() });
    }
    if let Some(sz) = size {
        let t = keyed_text("size", sz);
        parts.push(t);
    }
    let ghost v2 = parts@.map_values(|p: String| p@);
    proof {
        assert(v2 =~= v1 + match size { Some(s) => seq![keyed("size"@, s as nat)], None => Seq::<Seq<char>>::empty() });
    }
    if minimum_size != 1 {
        let t = keyed_text("minimum_size", minimum_size);
        parts.push(t);
    }
    let ghost v3 = parts@.map_values(|p: String| p@);
    proof {
        assert(v3 =~= v2 + if minimum_size != 1 { seq![keyed("minimum_size"@, minimum_size as nat)] } else { Seq::<Seq<char>>::empty() });
    }
    if ratio != 1 {
        let t = keyed_text("ratio", ratio);
        parts.push(t);
    }
    proof {
        let v4 = parts@.map_values(|p: String| p@);
        assert(v4 =~= v3 + if ratio != 1 { seq![keyed("ratio"@, ratio as nat)] } else { Seq::<Seq<char>>::empty() });
        assert(v4 =~= repr_parts_spec(name_spec, size, minimum_size, ratio));
    }
    parts
}

} // verus!
