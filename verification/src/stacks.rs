//! Small containers of the bindings: the layered theme and style stacks,
//! the order a theme lists its style names in, list indexing, and a table
//! row's check against its columns.

use vstd::prelude::*;
use crate::numfmt::{decimal, push_decimal, push_str};

verus! {

/// A stack of layers over a base that is never popped.
#[derive(Debug)]
pub struct LayerStack<T> {
    entries: Vec<T>,
}

/// `ThemeStack.pop_theme()` on the base alone: `Unable to pop base theme`.
#[derive(Clone, Copy, PartialEq, Eq, Debug)]
pub struct BaseLayer;

impl<T> LayerStack<T> {
    /// The layers, the base first.
    pub closed spec fn layers(&self) -> Seq<T> {
        self.entries@
    }

    /// A stack of the base alone.
    pub fn new(base: T) -> (s: LayerStack<T>)
        ensures
            s.layers() == seq![base],
    {
        let mut entries: Vec<T> = Vec::new();
        entries.push(base);
        assert(entries@ =~= seq![base]);
        LayerStack { entries }
    }

    /// Push a layer on top.
    pub fn push(&mut self, layer: T)
        ensures
            final(self).layers() == old(self).layers().push(layer),
    {
        self.entries.push(layer);
    }

    /// `ThemeStack.pop_theme()`: drop the top layer; the base stays.
    pub fn pop_layer(&mut self) -> (r: Result<(), BaseLayer>)
        ensures
            old(self).layers().len() <= 1 ==> r is Err && final(self).layers() == old(self).layers(),
            old(self).layers().len() > 1 ==> r is Ok && final(self).layers() == old(self).layers().drop_last(),
    {
        if self.entries.len() <= 1 {
            return Err(BaseLayer);
        }
        self.entries.pop();
        Ok(())
    }

    /// `StyleStack.pop()`: drop the top layer, then the one now on top; none
    /// when nothing is left (`IndexError`).
    pub fn pop_then_top(&mut self) -> (r: Option<&T>)
        ensures
            old(self).layers().len() == 0 ==> final(self).layers() == old(self).layers(),
            old(self).layers().len() > 0 ==> final(self).layers() == old(self).layers().drop_last(),
            final(self).layers().len() == 0 ==> r is None,
            final(self).layers().len() > 0 ==> r == Some(&final(self).layers().last()),
    {
        if self.entries.len() > 0 {
            self.entries.pop();
        }
        if self.entries.len() == 0 {
            None
        } else {
            Some(&self.entries[self.entries.len() - 1])
        }
    }

    /// The top layer; none on an empty stack.
    pub fn top(&self) -> (r: Option<&T>)
        ensures
            self.layers().len() == 0 ==> r is None,
            self.layers().len() > 0 ==> r == Some(&self.layers().last()),
    {
        if self.entries.len() == 0 {
            None
        } else {
            Some(&self.entries[self.entries.len() - 1])
        }
    }

    /// The number of layers.
    pub fn len(&self) -> (n: usize)
        ensures
            n == self.layers().len(),
    {
        self.entries.len()
    }
}

/// The characters of each string.
pub open spec fn name_views(s: Seq<String>) -> Seq<Seq<char>> {
    s.map_values(|n: String| n@)
}

/// The names of a theme in order: the inherited names, then each new name
/// the first time it is given.
pub open spec fn names_spec(acc: Seq<Seq<char>>, given: Seq<Seq<char>>) -> Seq<Seq<char>>
    decreases given.len(),
{
    if given.len() == 0 {
        acc
    } else {
        let before = names_spec(acc, given.drop_last());
        if before.contains(given.last()) {
            before
        } else {
            before.push(given.last())
        }
    }
}

fn holds_name(s: &Vec<String>, x: &str) -> (b: bool)
    ensures
        b == name_views(s@).contains(x@),
{
    let mut i: usize = 0;
    while i < s.len()
        invariant
            i <= s@.len(),
            forall|j: int| 0 <= j < i ==> s@[j]@ != x@,
        decreases s@.len() - i,
    {
        if same_text(s[i].as_str(), x) {
            assert(name_views(s@)[i as int] == x@);
            return true;
        }
        i = i + 1;
    }
    proof {
        if name_views(s@).contains(x@) {
            let j = choose|j: int| 0 <= j < s@.len() && #[trigger] name_views(s@)[j] == x@;
            assert(s@[j]@ == x@);
        }
    }
    false
}

fn same_text(a: &str, b: &str) -> (r: bool)
    ensures
        r == (a@ == b@),
{
    let x = crate::chars::chars_of(a);
    let y = crate::chars::chars_of(b);
    if x.len() != y.len() {
        return false;
    }
    let mut i: usize = 0;
    while i < x.len()
        invariant
            i <= x.len(),
            x.len() == y.len(),
            x@ == a@,
            y@ == b@,
            forall|j: int| 0 <= j < i ==> x@[j] == y@[j],
        decreases x.len() - i,
    {
        if x[i] != y[i] {
            return false;
        }
        i = i + 1;
    }
    assert(x@ =~= y@);
    true
}

fn copy_text(s: &str) -> (r: String)
    ensures
        r@ == s@,
{
    let mut r = String::new();
    push_str(&mut r, s);
    r
}

/// `Theme`'s order of style names: the inherited names (`inherit`), then
/// each given name not already there, in the order given.
pub fn theme_names(inherited: &Vec<String>, given: &Vec<String>, inherit: bool) -> (names: Vec<String>)
    ensures
        name_views(names@) == names_spec(
            if inherit { name_views(inherited@) } else { Seq::empty() },
            name_views(given@),
        ),
{
    let mut names: Vec<String> = Vec::new();
    let ghost start = if inherit { name_views(inherited@) } else { Seq::<Seq<char>>::empty() };
    if inherit {
        let mut i: usize = 0;
        while i < inherited.len()
            invariant
                i <= inherited@.len(),
                name_views(names@) == name_views(inherited@).take(i as int),
            decreases inherited@.len() - i,
        {
            let ghost before = name_views(names@);
            names.push(copy_text(inherited[i].as_str()));
            assert(name_views(names@) =~= before.push(inherited@[i as int]@));
            assert(name_views(inherited@).take(i + 1 as int) =~= name_views(inherited@).take(i as int).push(inherited@[i as int]@));
            i = i + 1;
        }
        assert(name_views(inherited@).take(inherited@.len() as int) =~= name_views(inherited@));
    } else {
        assert(name_views(names@) =~= Seq::<Seq<char>>::empty());
    }
    let ghost g = name_views(given@);
    let mut k: usize = 0;
    while k < given.len()
        invariant
            k <= given@.len(),
            g == name_views(given@),
            name_views(names@) == names_spec(start, g.take(k as int)),
        decreases given@.len() - k,
    {
        proof {
            assert(g.take(k + 1 as int).drop_last() =~= g.take(k as int));
            assert(g.take(k + 1 as int).last() == given@[k as int]@);
        }
        if !holds_name(&names, given[k].as_str()) {
            let ghost before = name_views(names@);
            names.push(copy_text(given[k].as_str()));
            assert(name_views(names@) =~= before.push(given@[k as int]@));
        }
        k = k + 1;
    }
    assert(g.take(given@.len() as int) =~= g);
    names
}

/// A theme lists each name once: new names never repeat one already
/// there.
pub proof fn law_names_distinct(acc: Seq<Seq<char>>, given: Seq<Seq<char>>)
    requires
        acc.no_duplicates(),
    ensures
        names_spec(acc, given).no_duplicates(),
        forall|i: int| 0 <= i < given.len() ==> names_spec(acc, given).contains(#[trigger] given[i]),
    decreases given.len(),
{
    if given.len() > 0 {
        law_names_distinct(acc, given.drop_last());
        let before = names_spec(acc, given.drop_last());
        if !before.contains(given.last()) {
            let after = before.push(given.last());
            assert forall|a: int, b: int| 0 <= a < after.len() && 0 <= b < after.len() && a != b
                implies after[a] != after[b] by {
                let last = after.len() - 1;
                if a == last {
                    assert(before[b] == after[b]);
                    if after[a] == after[b] {
                        assert(before[b] == given.last());
                        assert(before.contains(given.last()));
                    }
                } else if b == last {
                    assert(before[a] == after[a]);
                    if after[a] == after[b] {
                        assert(before[a] == given.last());
                        assert(before.contains(given.last()));
                    }
                } else {
                    assert(before[a] == after[a] && before[b] == after[b]);
                }
            }
            assert forall|i: int| 0 <= i < given.len() implies after.contains(#[trigger] given[i]) by {
                if i == given.len() - 1 {
                    assert(after[after.len() - 1] == given[i]);
                } else {
                    assert(given.drop_last()[i] == given[i]);
                    assert(before.contains(given[i]));
                    let j = choose|j: int| 0 <= j < before.len() && before[j] == given[i];
                    assert(after[j] == given[i]);
                }
            }
        } else {
            assert forall|i: int| 0 <= i < given.len() implies before.contains(#[trigger] given[i]) by {
                if i < given.len() - 1 {
                    assert(given.drop_last()[i] == given[i]);
                }
            }
        }
    }
}

/// `Lines[index]`'s position: a negative index counts from the end; out of
/// range is `None` (`IndexError`).
pub fn list_position(len: usize, index: isize) -> (r: Option<usize>)
    requires
        len <= isize::MAX,
    ensures
        ({
            let p: int = if index < 0 { len + index } else { index as int };
            if 0 <= p < len { r == Some(p as usize) } else { r is None }
        }),
{
    let n = len as isize;
    let p: isize = if index < 0 { n + index } else { index };
    if p < 0 || p >= n {
        None
    } else {
        Some(p as usize)
    }
}

/// `Table.add_row`'s check: no more values than columns, else the message
/// `too many values in row (N > M columns)`.
pub fn check_row(values: usize, columns: usize) -> (r: Result<(), String>)
    ensures
        values <= columns ==> r is Ok,
        values > columns ==> (r matches Err(m) && m@ == "too many values in row ("@ + decimal(values as nat)
            + " > "@ + decimal(columns as nat) + " columns)"@),
{
    if values <= columns {
        return Ok(());
    }
    let mut m = String::new();
    push_str(&mut m, "too many values in row (");
    push_decimal(&mut m, values as u64);
    push_str(&mut m, " > ");
    push_decimal(&mut m, columns as u64);
    push_str(&mut m, " columns)");
    Err(m)
}

} // verus!
