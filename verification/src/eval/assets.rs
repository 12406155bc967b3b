//! What the caller supplies to a run: the images that were read from files,
//! and the kernels of the blurs. The evaluator reads no file and computes no
//! kernel itself.

use crate::eval::assoc::{absent_from, assoc_map, lemma_assoc_absent, lemma_assoc_found, lemma_assoc_push};
use crate::image::effect::Kernel;
use crate::image::{Image, Raster};
use vstd::prelude::*;

verus! {

/// What the supplied assets are: for each path the image that was read or the
/// cause of the failure to read it, and for each radius the weights of the
/// kernel.
pub struct AssetsModel {
    pub images: Map<Seq<char>, Result<Raster, Seq<char>>>,
    pub kernels: Map<nat, Seq<u64>>,
}

/// The assets of a run.
#[derive(Debug)]
pub struct Assets {
    images: Vec<(String, Result<Image, String>)>,
    kernels: Vec<Kernel>,
}

/// What the result of reading a file is.
pub open spec fn loaded(r: Result<Image, String>) -> Result<Raster, Seq<char>> {
    match r {
        Ok(image) => Ok(image@),
        Err(cause) => Err(cause@),
    }
}

/// The paths and results of a list of files.
pub open spec fn files(images: Seq<(String, Result<Image, String>)>) -> Seq<
    (Seq<char>, Result<Raster, Seq<char>>),
> {
    Seq::new(images.len(), |i: int| (images[i].0@, loaded(images[i].1)))
}

/// The radii and weights of a list of kernels.
pub open spec fn kernel_entries(kernels: Seq<Kernel>) -> Seq<(nat, Seq<u64>)> {
    Seq::new(kernels.len(), |i: int| (kernels[i]@.len() / 2, kernels[i]@))
}

impl View for Assets {
    type V = AssetsModel;

    closed spec fn view(&self) -> AssetsModel {
        AssetsModel {
            images: assoc_map(files(self.images@)),
            kernels: assoc_map(kernel_entries(self.kernels@)),
        }
    }
}

impl Assets {
    /// No assets.
    pub fn new() -> (assets: Assets)
        ensures
            assets@ == (AssetsModel { images: Map::empty(), kernels: Map::empty() }),
    {
        let assets = Assets { images: Vec::new(), kernels: Vec::new() };
        proof {
            assert(files(assets.images@) =~= Seq::empty());
            assert(kernel_entries(assets.kernels@) =~= Seq::empty());
        }
        assets
    }

    /// Supplies the image that was read from `path`.
    pub fn add_image(&mut self, path: String, image: Image)
        ensures
            final(self)@ == (AssetsModel {
                images: old(self)@.images.insert(path@, Ok(image@)),
                kernels: old(self)@.kernels,
            }),
    {
        let ghost before = files(self.images@);
        proof {
            lemma_assoc_push(before, path@, Ok(image@));
        }
        self.images.push((path, Ok(image)));
        proof {
            assert(files(self.images@) =~= before.push((path@, Ok(image@))));
        }
    }

    /// Records that `path` could not be read as an image, and why.
    pub fn add_failure(&mut self, path: String, cause: String)
        ensures
            final(self)@ == (AssetsModel {
                images: old(self)@.images.insert(path@, Err(cause@)),
                kernels: old(self)@.kernels,
            }),
    {
        let ghost before = files(self.images@);
        proof {
            lemma_assoc_push(before, path@, Err(cause@));
        }
        self.images.push((path, Err(cause)));
        proof {
            assert(files(self.images@) =~= before.push((path@, Err(cause@))));
        }
    }

    /// Supplies the kernel for the blurs of its radius.
    pub fn add_kernel(&mut self, kernel: Kernel)
        ensures
            final(self)@ == (AssetsModel {
                images: old(self)@.images,
                kernels: old(self)@.kernels.insert(kernel@.len() / 2, kernel@),
            }),
    {
        let ghost before = kernel_entries(self.kernels@);
        proof {
            lemma_assoc_push(before, kernel@.len() / 2, kernel@);
        }
        self.kernels.push(kernel);
        proof {
            assert(kernel_entries(self.kernels@) =~= before.push((kernel@.len() / 2, kernel@)));
        }
    }

    /// What was supplied for `path`.
    pub fn image(&self, path: &str) -> (r: Option<&Result<Image, String>>)
        ensures
            match r {
                Some(found) => self@.images.contains_key(path@) && loaded(*found) == self@.images[path@],
                None => !self@.images.contains_key(path@),
            },
    {
        let key = path.to_owned();
        let mut i: usize = self.images.len();
        while i > 0
            invariant
                i <= self.images.len(),
                key@ == path@,
                absent_from(files(self.images@), path@, i as int),
            decreases i,
        {
            i -= 1;
            if self.images[i].0 == key {
                proof {
                    lemma_assoc_found(files(self.images@), path@, i as int);
                }
                return Some(&self.images[i].1);
            }
        }
        proof {
            lemma_assoc_absent(files(self.images@), path@);
        }
        None
    }

    /// The kernel that was supplied for the blurs of `radius`.
    pub fn kernel(&self, radius: usize) -> (r: Option<&Kernel>)
        ensures
            match r {
                Some(found) => self@.kernels.contains_key(radius as nat) && found@
                    == self@.kernels[radius as nat],
                None => !self@.kernels.contains_key(radius as nat),
            },
    {
        let mut i: usize = self.kernels.len();
        while i > 0
            invariant
                i <= self.kernels.len(),
                absent_from(kernel_entries(self.kernels@), radius as nat, i as int),
            decreases i,
        {
            i -= 1;
            if self.kernels[i].radius() == radius {
                proof {
                    lemma_assoc_found(kernel_entries(self.kernels@), radius as nat, i as int);
                }
                return Some(&self.kernels[i]);
            }
        }
        proof {
            lemma_assoc_absent(kernel_entries(self.kernels@), radius as nat);
        }
        None
    }
}

} // verus!
