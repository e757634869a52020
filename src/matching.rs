use vstd::prelude::*;

use std::collections::HashMap;

use crate::color::{key_of, pixel_key, transfer_luminance, with_lightness_of, LabColor, Pixel};
use crate::error::AppError;
use crate::table::all_valid;

verus! {

/// Index of the first smallest value among `d[0..n]`.
pub open spec fn first_min_index(d: Seq<u64>, n: int) -> int
    decreases n,
{
    if n <= 1 {
        0
    } else {
        let i = first_min_index(d, n - 1);
        if d[n - 1] < d[i] {
            n - 1
        } else {
            i
        }
    }
}

/// `i` holds a smallest distance, and no earlier entry is as small.
pub open spec fn is_first_minimum(d: Seq<u64>, i: int) -> bool {
    &&& 0 <= i < d.len()
    &&& forall|j: int| 0 <= j < d.len() ==> d[i] <= #[trigger] d[j]
    &&& forall|j: int| 0 <= j < i ==> d[i] < #[trigger] d[j]
}

/// The index a match picks is a nearest entry: no distance is smaller than
/// its distance, and every earlier entry is strictly farther.
pub proof fn lemma_first_min_is_nearest(d: Seq<u64>, n: int)
    requires
        1 <= n <= d.len(),
    ensures
        is_first_minimum(d.subrange(0, n), first_min_index(d, n)),
    decreases n,
{
    if n > 1 {
        lemma_first_min_is_nearest(d, n - 1);
        let i = first_min_index(d, n - 1);
        let pre = d.subrange(0, n - 1);
        let all = d.subrange(0, n);
        assert forall|j: int| 0 <= j < n - 1 implies all[j] == pre[j] by {}
        if d[n - 1] < d[i] {
            assert forall|j: int| 0 <= j < n implies all[n - 1] <= #[trigger] all[j] by {
                if j < n - 1 {
                    assert(pre[i] <= pre[j]);
                }
            }
            assert forall|j: int| 0 <= j < n - 1 implies all[n - 1] < #[trigger] all[j] by {
                assert(pre[i] <= pre[j]);
            }
        } else {
            assert forall|j: int| 0 <= j < n implies all[i] <= #[trigger] all[j] by {
                if j < n - 1 {
                    assert(pre[i] <= pre[j]);
                }
            }
            assert forall|j: int| 0 <= j < i implies all[i] < #[trigger] all[j] by {
                assert(pre[i] < pre[j]);
            }
        }
    }
}

/// The palette-matched colour of a pixel: its own lightness with the
/// chromaticity of the nearest palette entry.
pub open spec fn match_result(pixel_lab: LabColor, palette: Seq<LabColor>, distances: Seq<u64>) -> LabColor {
    with_lightness_of(pixel_lab, palette[first_min_index(distances, distances.len() as int)])
}

/// Index of the nearest palette entry, given the perceptual distance from the
/// pixel to each entry: the smallest distance, the first one on a tie.
pub fn nearest_index(distances: &Vec<u64>) -> (i: usize)
    requires
        distances@.len() > 0,
    ensures
        i == first_min_index(distances@, distances@.len() as int),
        is_first_minimum(distances@, i as int),
{
    let mut best: usize = 0;
    let mut j: usize = 1;
    while j < distances.len()
        invariant
            1 <= j <= distances@.len(),
            best == first_min_index(distances@, j as int),
            is_first_minimum(distances@.subrange(0, j as int), best as int),
        decreases distances@.len() - j,
    {
        let ghost pre = distances@.subrange(0, j as int);
        let ghost next = distances@.subrange(0, j + 1);
        if distances[j] < distances[best] {
            proof {
                assert forall|k: int| 0 <= k < next.len() implies next[j as int] <= #[trigger] next[k] by {
                    if k < j {
                        assert(pre[best as int] <= pre[k]);
                    }
                }
                assert forall|k: int| 0 <= k < j implies next[j as int] < #[trigger] next[k] by {
                    assert(pre[best as int] <= pre[k]);
                }
            }
            best = j;
        } else {
            proof {
                assert forall|k: int| 0 <= k < next.len() implies next[best as int] <= #[trigger] next[k] by {
                    if k < j {
                        assert(pre[best as int] <= pre[k]);
                    }
                }
                assert forall|k: int| 0 <= k < best implies next[best as int] < #[trigger] next[k] by {
                    assert(pre[best as int] < pre[k]);
                }
            }
        }
        j = j + 1;
    }
    proof {
        assert(distances@.subrange(0, distances@.len() as int) =~= distances@);
    }
    best
}

/// Memo of palette matches, keyed by a pixel's packed bytes. A match depends
/// on the pixel alone, so an entry, once there, stays right.
pub struct ColorCache {
    entries: HashMap<u32, LabColor>,
}

impl View for ColorCache {
    type V = Map<u32, LabColor>;

    closed spec fn view(&self) -> Map<u32, LabColor> {
        self.entries@
    }
}

impl ColorCache {
    /// Every cached colour is valid.
    pub open spec fn wf(&self) -> bool {
        forall|k: u32| self@.contains_key(k) ==> (#[trigger] self@[k]).valid()
    }

    pub fn new() -> (c: ColorCache)
        ensures
            c@ == Map::<u32, LabColor>::empty(),
            c.wf(),
    {
        ColorCache { entries: HashMap::new() }
    }

    /// The cached match of `p`, if any.
    pub fn get(&self, p: &Pixel) -> (r: Option<LabColor>)
        ensures
            match r {
                Some(v) => self@.contains_key(pixel_key(*p)) && self@[pixel_key(*p)] == v,
                None => !self@.contains_key(pixel_key(*p)),
            },
    {
        broadcast use vstd::std_specs::hash::group_hash_axioms;

        let k = key_of(p);
        match self.entries.get(&k) {
            Some(v) => Some(*v),
            None => None,
        }
    }

    /// Whether `p` has a cached match.
    pub fn contains(&self, p: &Pixel) -> (r: bool)
        ensures
            r == self@.contains_key(pixel_key(*p)),
    {
        broadcast use vstd::std_specs::hash::group_hash_axioms;

        let k = key_of(p);
        self.entries.contains_key(&k)
    }

    /// Records `v` as the match of `p`; an earlier entry is overwritten.
    pub fn insert(&mut self, p: &Pixel, v: LabColor)
        ensures
            final(self)@ == old(self)@.insert(pixel_key(*p), v),
            old(self).wf() && v.valid() ==> final(self).wf(),
    {
        broadcast use vstd::std_specs::hash::group_hash_axioms;

        let k = key_of(p);
        self.entries.insert(k, v);
        proof {
            if old(self).wf() && v.valid() {
                assert forall|j: u32| self@.contains_key(j) implies (#[trigger] self@[j]).valid() by {
                    if j != k {
                        assert(old(self)@.contains_key(j));
                    }
                }
            }
        }
    }

    /// The palette match of pixel `p`, whose Lab value is `pixel_lab`, given
    /// the perceptual distance from `pixel_lab` to each palette entry. A cached
    /// match is returned as it is; otherwise the nearest entry (first on a tie)
    /// lends its chromaticity to the pixel's own lightness, and the result is
    /// cached. An empty palette is refused and the cache left alone.
    pub fn match_color(
        &mut self,
        p: &Pixel,
        pixel_lab: &LabColor,
        distances: &Vec<u64>,
        palette: &Vec<LabColor>,
    ) -> (r: Result<LabColor, AppError>)
        requires
            old(self).wf(),
            pixel_lab.valid(),
            all_valid(palette@),
            distances@.len() == palette@.len(),
        ensures
            final(self).wf(),
            palette@.len() == 0 <==> r is Err,
            palette@.len() == 0 ==> (r matches Err(AppError::PaletteEmpty)) && final(self)@ == old(
                self,
            )@,
            palette@.len() > 0 && old(self)@.contains_key(pixel_key(*p)) ==> r == Ok::<
                LabColor,
                AppError,
            >(old(self)@[pixel_key(*p)]) && final(self)@ == old(self)@,
            palette@.len() > 0 && !old(self)@.contains_key(pixel_key(*p)) ==> {
                let m = match_result(*pixel_lab, palette@, distances@);
                r == Ok::<LabColor, AppError>(m) && final(self)@ == old(self)@.insert(
                    pixel_key(*p),
                    m,
                )
            },
    {
        if palette.len() == 0 {
            return Err(AppError::PaletteEmpty);
        }
        match self.get(p) {
            Some(v) => Ok(v),
            None => {
                let i = nearest_index(distances);
                let m = transfer_luminance(pixel_lab, &palette[i]);
                self.insert(p, m);
                Ok(m)
            },
        }
    }
}

} // verus!
