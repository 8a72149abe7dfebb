//! Containers that asset loaders fill.
use crate::scene::UvRange;
use vstd::prelude::*;

verus! {

/// An item with the name it had in the asset file, if any.
#[derive(Debug)]
pub struct Named<T> {
    pub data: T,
    pub name: Option<String>,
}

/// Items in the order an asset file lists them, each with its name.
#[derive(Debug)]
pub struct NamedVec<T>(pub Vec<Named<T>>);

/// The entry at `i` carries the name `name`.
pub open spec fn has_name<T>(items: Seq<Named<T>>, i: int, name: Seq<char>) -> bool {
    match items[i].name {
        Some(n) => n@ == name,
        None => false,
    }
}

impl<T> NamedVec<T> {
    /// An empty list.
    pub fn new() -> (r: NamedVec<T>)
        ensures
            r.0@.len() == 0,
    {
        NamedVec(Vec::new())
    }

    /// The item at `index`.
    pub fn get(&self, index: usize) -> (r: &T)
        requires
            index < self.0@.len(),
        ensures
            *r == self.0@[index as int].data,
    {
        &self.0[index].data
    }

    /// Every item, in order.
    pub fn iter(&self) -> (r: Vec<&T>)
        ensures
            r@.len() == self.0@.len(),
            forall|i: int| 0 <= i < r@.len() ==> *r@[i] == self.0@[i].data,
    {
        let mut r: Vec<&T> = Vec::new();
        let mut i: usize = 0;
        while i < self.0.len()
            invariant
                i <= self.0@.len(),
                r@.len() == i,
                forall|j: int| 0 <= j < i ==> *r@[j] == self.0@[j].data,
            decreases self.0@.len() - i,
        {
            r.push(&self.0[i].data);
            i = i + 1;
        }
        r
    }

    /// The first item named `name`.
    pub fn find(&self, name: &str) -> (r: Option<&T>)
        ensures
            match r {
                Some(item) => exists|i: int|
                    {
                        &&& 0 <= i < self.0@.len()
                        &&& has_name(self.0@, i, name@)
                        &&& forall|j: int| 0 <= j < i ==> !has_name(self.0@, j, name@)
                        &&& *item == self.0@[i].data
                    },
                None => forall|i: int| 0 <= i < self.0@.len() ==> !has_name(self.0@, i, name@),
            },
    {
        let wanted = name.to_owned();
        let mut i: usize = 0;
        while i < self.0.len()
            invariant
                i <= self.0@.len(),
                wanted@ == name@,
                forall|j: int| 0 <= j < i ==> !has_name(self.0@, j, name@),
            decreases self.0@.len() - i,
        {
            let elem = &self.0[i];
            let found = match &elem.name {
                Some(n) => *n == wanted,
                None => false,
            };
            if found {
                assert(has_name(self.0@, i as int, name@));
                return Some(&elem.data);
            }
            i = i + 1;
        }
        None
    }
}

/// A grid of equally sized cells in an image: a sprite sheet or a tile map.
#[derive(Clone, Copy, Debug)]
pub struct SpriteMap {
    pub origin: (u16, u16),
    pub cell_size: (u16, u16),
}

impl SpriteMap {
    /// The pixel rectangle of the cell in column `index.0`, row `index.1`.
    pub fn at(&self, index: (usize, usize)) -> (r: UvRange)
        requires
            index.0 * self.cell_size.0 + self.cell_size.0 <= i16::MAX,
            index.1 * self.cell_size.1 + self.cell_size.1 <= i16::MAX,
        ensures
            r.start.0 == index.0 * self.cell_size.0,
            r.start.1 == index.1 * self.cell_size.1,
            r.end.0 == r.start.0 + self.cell_size.0,
            r.end.1 == r.start.1 + self.cell_size.1,
    {
        proof {
            assert(index.0 * self.cell_size.0 >= 0) by (nonlinear_arith);
            assert(index.1 * self.cell_size.1 >= 0) by (nonlinear_arith);
            assert(self.cell_size.0 == 0 || index.0 <= index.0 * self.cell_size.0) by (nonlinear_arith);
            assert(self.cell_size.1 == 0 || index.1 <= index.1 * self.cell_size.1) by (nonlinear_arith);
        }
        let x: i16 = index.0 as i16 * self.cell_size.0 as i16;
        let y: i16 = index.1 as i16 * self.cell_size.1 as i16;
        UvRange {
            start: (x, y),
            end: (x + self.cell_size.0 as i16, y + self.cell_size.1 as i16),
        }
    }
}

} // verus!
