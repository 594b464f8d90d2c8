//! Per-channel 256-entry lookup tables.
use vstd::prelude::*;
use crate::pixel::Rgba;

verus! {

/// The four tables of a filter, indexed by channel level.
pub struct FilterView {
    pub r: Seq<u8>,
    pub g: Seq<u8>,
    pub b: Seq<u8>,
    pub a: Seq<u8>,
}

/// A pixel with each channel remapped through its table.
pub open spec fn filtered(f: FilterView, p: Rgba) -> Rgba {
    Rgba { r: f.r[p.r as int], g: f.g[p.g as int], b: f.b[p.b as int], a: f.a[p.a as int] }
}

/// Four byte tables `{r, g, b, a}` of 256 entries each; immutable once built.
pub struct Filter {
    r: Vec<u8>,
    g: Vec<u8>,
    b: Vec<u8>,
    a: Vec<u8>,
}

impl View for Filter {
    type V = FilterView;

    closed spec fn view(&self) -> FilterView {
        FilterView { r: self.r@, g: self.g@, b: self.b@, a: self.a@ }
    }
}

/// `f` succeeded at level `j`, with some value.
pub open spec fn ok_at<E, F: Fn(u32) -> Result<u8, E>>(f: F, j: u32) -> bool {
    exists|v: u8| f.ensures((j,), Ok::<u8, E>(v))
}

/// `f` succeeded at every level `0..=255`.
pub open spec fn maps_all<E, F: Fn(u32) -> Result<u8, E>>(f: F) -> bool {
    forall|j: u32| j < 256 ==> #[trigger] ok_at(f, j)
}

/// Evaluated at levels `0, 1, ...` in order, `f` first failed with `e`: it
/// returned `e` at some level and succeeded at every level before it.
pub open spec fn first_err<E, F: Fn(u32) -> Result<u8, E>>(f: F, e: E) -> bool {
    exists|i: u32|
        i < 256 && #[trigger] f.ensures((i,), Err::<u8, E>(e)) && forall|j: u32|
            j < i ==> #[trigger] ok_at(f, j)
}

/// Evaluates `f` at every level `0..=255`, in order, and keeps the results.
/// Stops at the first error and returns it.
fn prepare_map<E, F: Fn(u32) -> Result<u8, E>>(f: &F) -> (r: Result<Vec<u8>, E>)
    requires
        forall|i: u32| i < 256 ==> f.requires((i,)),
    ensures
        r matches Ok(t) ==> t@.len() == 256 && maps_all(*f) && forall|i: int|
            0 <= i < 256 ==> f.ensures((i as u32,), Ok::<u8, E>(#[trigger] t@[i])),
        r matches Err(e) ==> first_err(*f, e),
{
    let mut table: Vec<u8> = Vec::with_capacity(256);
    let mut i: u32 = 0;
    while i < 256
        invariant
            i <= 256,
            table@.len() == i,
            forall|i: u32| i < 256 ==> f.requires((i,)),
            forall|j: int| 0 <= j < i ==> f.ensures((j as u32,), Ok::<u8, E>(#[trigger] table@[j])),
        decreases 256 - i,
    {
        let res = f(i);
        match res {
            Ok(v) => table.push(v),
            Err(e) => {
                proof {
                    assert forall|j: u32| j < i implies #[trigger] ok_at(*f, j) by {
                        assert(f.ensures((j,), Ok::<u8, E>(table@[j as int])));
                    }
                    assert(f.ensures((i,), Err::<u8, E>(e)));
                }
                let out: Result<Vec<u8>, E> = Err(e);
                assert(out matches Err(e2) && e2 == e);
                return out;
            },
        }
        i = i + 1;
    }
    proof {
        assert forall|j: u32| j < 256 implies #[trigger] ok_at(*f, j) by {
            assert(f.ensures((j,), Ok::<u8, E>(table@[j as int])));
        }
    }
    Ok(table)
}

impl Filter {
    /// Every table has 256 entries.
    pub closed spec fn wf(&self) -> bool {
        &&& self.r@.len() == 256
        &&& self.g@.len() == 256
        &&& self.b@.len() == 256
        &&& self.a@.len() == 256
    }

    /// A well-formed filter has four tables of 256 entries.
    pub proof fn lemma_table_lengths(&self)
        requires
            self.wf(),
        ensures
            self@.r.len() == 256,
            self@.g.len() == 256,
            self@.b.len() == 256,
            self@.a.len() == 256,
    {
    }

    /// Builds the tables from four per-level mappings, evaluated in the order
    /// `fr`, `fg`, `fb`, `fa`, each at levels 0 to 255 in order. Fails with
    /// the first error returned, evaluating nothing after it.
    pub fn build<E, FR, FG, FB, FA>(fr: FR, fg: FG, fb: FB, fa: FA) -> (r: Result<Filter, E>) where
        FR: Fn(u32) -> Result<u8, E>,
        FG: Fn(u32) -> Result<u8, E>,
        FB: Fn(u32) -> Result<u8, E>,
        FA: Fn(u32) -> Result<u8, E>,

        requires
            forall|i: u32| i < 256 ==> fr.requires((i,)),
            forall|i: u32| i < 256 ==> fg.requires((i,)),
            forall|i: u32| i < 256 ==> fb.requires((i,)),
            forall|i: u32| i < 256 ==> fa.requires((i,)),
        ensures
            r matches Ok(f) ==> f.wf() && forall|i: int|
                0 <= i < 256 ==> {
                    &&& fr.ensures((i as u32,), Ok::<u8, E>(#[trigger] f@.r[i]))
                    &&& fg.ensures((i as u32,), Ok::<u8, E>(f@.g[i]))
                    &&& fb.ensures((i as u32,), Ok::<u8, E>(f@.b[i]))
                    &&& fa.ensures((i as u32,), Ok::<u8, E>(f@.a[i]))
                },
            r matches Err(e) ==> {
                ||| first_err(fr, e)
                ||| maps_all(fr) && first_err(fg, e)
                ||| maps_all(fr) && maps_all(fg) && first_err(fb, e)
                ||| maps_all(fr) && maps_all(fg) && maps_all(fb) && first_err(fa, e)
            },
    {
        let r = match prepare_map(&fr) {
            Ok(t) => t,
            Err(e) => {
                let out: Result<Filter, E> = Err(e);
                assert(out matches Err(e2) && e2 == e);
                return out;
            },
        };
        let g = match prepare_map(&fg) {
            Ok(t) => t,
            Err(e) => {
                let out: Result<Filter, E> = Err(e);
                assert(out matches Err(e2) && e2 == e);
                return out;
            },
        };
        let b = match prepare_map(&fb) {
            Ok(t) => t,
            Err(e) => {
                let out: Result<Filter, E> = Err(e);
                assert(out matches Err(e2) && e2 == e);
                return out;
            },
        };
        let a = match prepare_map(&fa) {
            Ok(t) => t,
            Err(e) => {
                let out: Result<Filter, E> = Err(e);
                assert(out matches Err(e2) && e2 == e);
                return out;
            },
        };
        Ok(Filter { r, g, b, a })
    }

    /// Remaps the four channels of a pixel.
    pub fn lookup(&self, p: Rgba) -> (r: Rgba)
        requires
            self.wf(),
        ensures
            r == filtered(self@, p),
    {
        Rgba {
            r: self.r[p.r as usize],
            g: self.g[p.g as usize],
            b: self.b[p.b as usize],
            a: self.a[p.a as usize],
        }
    }

    /// A copy with its own tables.
    pub fn clone(&self) -> (r: Filter)
        requires
            self.wf(),
        ensures
            r.wf(),
            r@ == self@,
    {
        Filter { r: self.r.clone(), g: self.g.clone(), b: self.b.clone(), a: self.a.clone() }
    }
}

} // verus!
