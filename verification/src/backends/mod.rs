//! Color extraction backends: pre-sampled pixels in, dominant colors out.
//! Selected by name from the command line.
pub mod median_cut;
pub mod kmeans;

use vstd::prelude::*;
use crate::backends::kmeans::{kmeans_run, KMeans};
use crate::backends::median_cut::{median_cut_colors, median_cut_result, pixel_count_ok, MedianCut};
use crate::colors::types::Rgb;
use crate::error::RwalError;
use crate::text::str_eq;

verus! {

/// Every color extraction backend implements this trait.
/// Input: pre-sampled pixels from the image. Output: up to `count` dominant colors.
pub trait Backend {
    /// The name the backend reports about itself.
    spec fn label(&self) -> Seq<char>;

    /// Whether the backend can serve a request for `count` colors over
    /// `iterations` rounds.
    spec fn accepts(&self, count: nat, iterations: nat) -> bool;

    /// Whether `r` is a result this backend may give for these inputs.
    spec fn produces(&self, pixels: Seq<Rgb>, count: nat, iterations: nat, r: Result<Vec<Rgb>, RwalError>) -> bool;

    fn name(&self) -> (n: &str)
        ensures
            n@ == self.label(),
    ;

    /// Extract dominant colors from the pixels of a request the backend accepts.
    fn generate(&self, pixels: &[Rgb], count: usize, iterations: u8) -> (r: Result<Vec<Rgb>, RwalError>)
        requires
            pixel_count_ok(pixels@.len()),
            self.accepts(count as nat, iterations as nat),
        ensures
            pixels@.len() == 0 ==> r == Err::<Vec<Rgb>, RwalError>(RwalError::NoColorsExtracted),
            self.produces(pixels@, count as nat, iterations as nat, r),
    ;
}

impl Backend for KMeans {
    open spec fn label(&self) -> Seq<char> {
        "accurate"@
    }

    /// K-means cannot run a round with no clusters to assign pixels to.
    open spec fn accepts(&self, count: nat, iterations: nat) -> bool {
        count > 0 || iterations == 0
    }

    open spec fn produces(&self, pixels: Seq<Rgb>, count: nat, iterations: nat, r: Result<Vec<Rgb>, RwalError>) -> bool {
        &&& pixels.len() == 0 ==> r == Err::<Vec<Rgb>, RwalError>(RwalError::NoColorsExtracted)
        &&& pixels.len() > 0 ==> exists|seeds: Seq<Rgb>| #[trigger] kmeans_run(pixels, count, iterations, seeds, r)
    }

    fn name(&self) -> (n: &str) {
        KMeans::name(self)
    }

    fn generate(&self, pixels: &[Rgb], count: usize, iterations: u8) -> (r: Result<Vec<Rgb>, RwalError>) {
        KMeans::generate(self, pixels, count, iterations)
    }
}

impl Backend for MedianCut {
    open spec fn label(&self) -> Seq<char> {
        "median_cut"@
    }

    /// Median cut serves every request (a request for no colors is refused
    /// with an error).
    open spec fn accepts(&self, count: nat, iterations: nat) -> bool {
        true
    }

    open spec fn produces(&self, pixels: Seq<Rgb>, count: nat, iterations: nat, r: Result<Vec<Rgb>, RwalError>) -> bool {
        &&& pixels.len() == 0 || count == 0 <==> r == Err::<Vec<Rgb>, RwalError>(RwalError::NoColorsExtracted)
        &&& r is Ok ==> r->Ok_0@ == median_cut_colors(pixels, count)
        &&& r is Ok ==> median_cut_result(pixels, count, r->Ok_0@)
        &&& pixels.len() > 0 && count > 0 ==> r is Ok && 1 <= r->Ok_0@.len() <= count && r->Ok_0@.len() <= pixels.len()
    }

    fn name(&self) -> (n: &str) {
        MedianCut::name(self)
    }

    fn generate(&self, pixels: &[Rgb], count: usize, iterations: u8) -> (r: Result<Vec<Rgb>, RwalError>) {
        MedianCut::generate(self, pixels, count, iterations)
    }
}

/// Select a backend by name string (from the --backend flag): "accurate"
/// (or "kmeans") is k-means, "fast" (or "median_cut") is median cut.
pub fn from_name(name: &str) -> (r: Result<Box<dyn Backend>, RwalError>)
    ensures
        name@ == "accurate"@ || name@ == "kmeans"@ ==> r is Ok && r->Ok_0.label() == "accurate"@,
        name@ == "fast"@ || name@ == "median_cut"@ ==> r is Ok && r->Ok_0.label() == "median_cut"@,
        name@ != "accurate"@ && name@ != "kmeans"@ && name@ != "fast"@ && name@ != "median_cut"@ ==> r is Err
            && r->Err_0 is UnsupportedBackend && r->Err_0->UnsupportedBackend_0@ == name@,
{
    proof {
        reveal_strlit("accurate");
        reveal_strlit("kmeans");
        reveal_strlit("fast");
        reveal_strlit("median_cut");
        assert("fast"@.len() != "accurate"@.len() && "fast"@.len() != "kmeans"@.len());
        assert("median_cut"@.len() != "accurate"@.len() && "median_cut"@.len() != "kmeans"@.len());
    }
    if str_eq(name, "accurate") || str_eq(name, "kmeans") {
        Ok(Box::new(KMeans))
    } else if str_eq(name, "fast") || str_eq(name, "median_cut") {
        Ok(Box::new(MedianCut))
    } else {
        Err(RwalError::UnsupportedBackend(name.to_owned()))
    }
}

/// Default backend used when none is specified: k-means, boxed. It is
/// returned as `Box<KMeans>`, which coerces to `Box<dyn Backend>` wherever a
/// backend of either kind is expected (Verus stops on any postcondition of a
/// function whose result is `Box<dyn Backend>`).
pub fn default() -> (b: Box<KMeans>)
    ensures
        b.label() == "accurate"@,
{
    Box::new(KMeans)
}

} // verus!
