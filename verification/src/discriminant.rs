//! Numbering the variants of a union.
//!
//! A variant may carry an explicit discriminant; one that carries none
//! counts up from the nearest explicit one before it, or from zero where
//! there is none. The base is never looked into, so it may be a number or
//! anything that stands for one.

use vstd::prelude::*;

verus! {

/// The discriminant of a variant: `offset` above `base`.
#[derive(Debug, PartialEq, Eq)]
pub struct Resolved<B> {
    /// The explicit discriminant that the count starts from, or zero.
    pub base: B,
    /// How many variants after the one with that base this one comes.
    pub offset: usize,
}

/// The discriminant of a variant of a union whose bases are numbers.
pub type Discriminant = Resolved<i128>;

impl Resolved<i128> {
    /// The number that the discriminant comes to.
    pub open spec fn value(self) -> int {
        self.base + self.offset
    }
}

/// The position of the last explicit discriminant at or before position
/// `i`, if there is one.
pub open spec fn last_override<B>(overrides: Seq<Option<B>>, i: int) -> Option<int>
    decreases i + 1,
{
    if i < 0 || i >= overrides.len() {
        None
    } else if overrides[i] is Some {
        Some(i)
    } else {
        last_override(overrides, i - 1)
    }
}

/// The discriminant of the variant at position `i`: counted from the last
/// explicit discriminant at or before it, or from `zero` at the first
/// variant where there is none.
pub open spec fn resolved_at<B>(overrides: Seq<Option<B>>, zero: B, i: int) -> Resolved<B> {
    match last_override(overrides, i) {
        Some(j) => Resolved { base: overrides[j]->Some_0, offset: (i - j) as usize },
        None => Resolved { base: zero, offset: i as usize },
    }
}

/// Gives every variant its discriminant, in the order of declaration.
/// `overrides` holds, for each variant, its explicit discriminant if it has
/// one. Nothing is checked: two variants may come to the same number.
pub fn resolve<B: Copy>(overrides: &Vec<Option<B>>, zero: B) -> (out: Vec<Resolved<B>>)
    ensures
        out@.len() == overrides@.len(),
        forall|i: int| 0 <= i < out@.len() ==> out@[i] == resolved_at(overrides@, zero, i),
{
    let mut out: Vec<Resolved<B>> = Vec::new();
    let mut last_disc: B = zero;
    let mut disc_offset: usize = 0;
    let mut i: usize = 0;
    while i < overrides.len()
        invariant
            i <= overrides@.len(),
            out@.len() == i,
            disc_offset <= i,
            forall|k: int| 0 <= k < i ==> out@[k] == resolved_at(overrides@, zero, k),
            match last_override(overrides@, i - 1) {
                Some(j) => last_disc == overrides@[j]->Some_0 && disc_offset == i - j,
                None => last_disc == zero && disc_offset == i,
            },
        decreases overrides@.len() - i,
    {
        if let Some(x) = &overrides[i] {
            last_disc = *x;
            disc_offset = 0;
        }
        out.push(Resolved { base: last_disc, offset: disc_offset });
        disc_offset = disc_offset + 1;
        i = i + 1;
    }
    out
}

/// An explicit discriminant is kept as it is.
pub proof fn explicit_is_kept<B>(overrides: Seq<Option<B>>, zero: B, i: int)
    requires
        0 <= i < overrides.len(),
        overrides[i] is Some,
    ensures
        resolved_at(overrides, zero, i) == (Resolved { base: overrides[i]->Some_0, offset: 0 }),
{
}

/// A variant without an explicit discriminant comes one after the variant
/// before it, and the first variant starts at zero.
pub proof fn implicit_counts_up<B>(overrides: Seq<Option<B>>, zero: B, i: int)
    requires
        0 <= i < overrides.len() <= usize::MAX,
        overrides[i] is None,
    ensures
        i == 0 ==> resolved_at(overrides, zero, i) == (Resolved { base: zero, offset: 0 }),
        i > 0 ==> resolved_at(overrides, zero, i).base == resolved_at(overrides, zero, i - 1).base,
        i > 0 ==> resolved_at(overrides, zero, i).offset == resolved_at(
            overrides,
            zero,
            i - 1,
        ).offset + 1,
{
    reveal_with_fuel(last_override, 2);
    if i > 0 {
        lemma_last_override_bounds(overrides, i - 1);
    }
}

/// The last explicit discriminant at or before `i` is at or before `i`.
pub proof fn lemma_last_override_bounds<B>(overrides: Seq<Option<B>>, i: int)
    requires
        i < overrides.len(),
    ensures
        last_override(overrides, i) matches Some(j) ==> 0 <= j <= i && overrides[j] is Some,
    decreases i + 1,
{
    if i >= 0 && overrides[i] is None {
        lemma_last_override_bounds(overrides, i - 1);
    }
}

/// Whether two discriminants come to the same number.
pub fn same_value(a: &Discriminant, b: &Discriminant) -> (same: bool)
    ensures
        same == (a.value() == b.value()),
{
    let gained: i128 = b.offset as i128 - a.offset as i128;
    match a.base.checked_sub(b.base) {
        Some(apart) => apart == gained,
        None => false,
    }
}

/// Whether the discriminant at position `j` has been seen before: a
/// discriminant at an earlier position comes to the same number.
pub open spec fn shadowed(ds: Seq<Discriminant>, j: int) -> bool {
    exists|i: int| 0 <= i < j && #[trigger] ds[i].value() == ds[j].value()
}

/// The first discriminant that has been seen before, with the first
/// position at which it was: for a union, the first variant that decoding
/// can never select, and the variant that is selected in its place. `None`
/// where all discriminants differ.
pub fn first_duplicate(ds: &Vec<Discriminant>) -> (r: Option<(usize, usize)>)
    ensures
        match r {
            Some((i, j)) => {
                &&& i < j < ds@.len()
                &&& ds@[i as int].value() == ds@[j as int].value()
                &&& forall|q: int| 0 <= q < i ==> (#[trigger] ds@[q]).value() != ds@[j as int].value()
                &&& forall|q: int| 0 <= q < j ==> !shadowed(ds@, q)
            },
            None => forall|q: int| 0 <= q < ds@.len() ==> !shadowed(ds@, q),
        },
{
    let mut j: usize = 0;
    while j < ds.len()
        invariant
            j <= ds@.len(),
            forall|q: int| 0 <= q < j ==> !shadowed(ds@, q),
        decreases ds@.len() - j,
    {
        let mut i: usize = 0;
        while i < j
            invariant
                i <= j < ds@.len(),
                forall|q: int| 0 <= q < j ==> !shadowed(ds@, q),
                forall|q: int| 0 <= q < i ==> (#[trigger] ds@[q]).value() != ds@[j as int].value(),
            decreases j - i,
        {
            if same_value(&ds[i], &ds[j]) {
                return Some((i, j));
            }
            i = i + 1;
        }
        j = j + 1;
    }
    None
}

} // verus!
