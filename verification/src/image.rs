//! Raster image storage for image-backed textures.
//!
//! Decoding image files is an I/O concern and lives outside the library;
//! this type holds decoded RGB8 rows and answers clamped pixel lookups
//! with an exact contract.

use vstd::prelude::*;
use vstd::string::StringExecFns;

verus! {

#[derive(Clone, Debug)]
pub struct RtwImage {
    pub width: u32,
    pub height: u32,
    pub data_rgb8: Vec<u8>,
}

/// Consistent storage: three bytes per pixel, row major, modest size.
pub open spec fn image_wf(img: RtwImage) -> bool {
    &&& img.data_rgb8@.len() == img.width * img.height * 3
    &&& img.width <= 16384
    &&& img.height <= 16384
}

/// Clamp `x` into `[low, high)`.
pub open spec fn clamp_spec(x: int, low: int, high: int) -> int {
    if x < low {
        low
    } else if x < high {
        x
    } else {
        high - 1
    }
}

/// The byte triple reported for a pixel query.
pub open spec fn pixel_spec(img: RtwImage, x: int, y: int) -> (int, int, int) {
    if img.data_rgb8@.len() == 0 || img.width == 0 || img.height == 0 {
        (255int, 0int, 255int)
    } else {
        let cx = clamp_spec(x, 0, img.width as int);
        let cy = clamp_spec(y, 0, img.height as int);
        let idx = cy * (img.width as int) * 3 + cx * 3;
        (
            img.data_rgb8@[idx] as int,
            img.data_rgb8@[idx + 1] as int,
            img.data_rgb8@[idx + 2] as int,
        )
    }
}

/// Clamp into `[low, high)`, as the image lookup needs.
pub fn clamp_i32(x: i32, low: i32, high: i32) -> (r: i32)
    requires
        low < high,
    ensures
        r == clamp_spec(x as int, low as int, high as int),
{
    if x < low {
        return low;
    }
    if x < high {
        return x;
    }
    high - 1
}

impl RtwImage {
    /// Wrap decoded RGB8 data; inconsistent dimensions yield the empty
    /// image (which reads as the magenta sentinel).
    pub fn new(width: u32, height: u32, data_rgb8: Vec<u8>) -> (r: RtwImage)
        ensures
            image_wf(r),
    {
        if width <= 16384 && height <= 16384 {
            proof {
                crate::fx::lemma_mul_abs_bound(width as int, height as int, 16384, 16384);
            }
            let expect: u64 = (width as u64) * (height as u64) * 3;
            if (data_rgb8.len() as u64) == expect {
                proof {
                    assert(data_rgb8@.len() == width * height * 3);
                }
                return RtwImage { width, height, data_rgb8 };
            }
        }
        RtwImage { width: 0, height: 0, data_rgb8: Vec::new() }
    }

    /// The empty image.
    pub fn new_empty() -> (r: RtwImage)
        ensures
            image_wf(r),
            r.width == 0,
            r.height == 0,
    {
        RtwImage { width: 0, height: 0, data_rgb8: Vec::new() }
    }

    /// Clamped pixel lookup; the empty image reads as magenta.
    pub fn pixel_data(&self, x: i32, y: i32) -> (r: [u8; 3])
        requires
            image_wf(*self),
        ensures
            r[0] as int == pixel_spec(*self, x as int, y as int).0,
            r[1] as int == pixel_spec(*self, x as int, y as int).1,
            r[2] as int == pixel_spec(*self, x as int, y as int).2,
    {
        if self.data_rgb8.len() == 0 || self.width == 0 || self.height == 0 {
            return [255, 0, 255];
        }
        let cx = clamp_i32(x, 0, self.width as i32);
        let cy = clamp_i32(y, 0, self.height as i32);
        proof {
            crate::fx::lemma_mul_abs_bound(cy as int, self.width as int, 16384, 16384);
        }
        let idx: usize = (cy as usize) * (self.width as usize) * 3 + (cx as usize) * 3;
        proof {
            assert((cy as int) * (self.width as int) * 3 + (cx as int) * 3 + 2
                < self.data_rgb8@.len()) by (nonlinear_arith)
                requires
                    0 <= (cy as int) && (cy as int) < self.height as int,
                    0 <= (cx as int) && (cx as int) < self.width as int,
                    self.data_rgb8@.len() == (self.width as int) * (self.height as int) * 3,
                    self.width >= 1,
                    self.height >= 1,
            ;
        }
        [self.data_rgb8[idx], self.data_rgb8[idx + 1], self.data_rgb8[idx + 2]]
    }

    /// The relative locations an image file is searched at: the bare name,
    /// an `images` directory beside it, and the same up to six levels up.
    pub fn candidate_paths(filename: &str) -> (r: Vec<String>)
        ensures
            r@.len() == 8,
            r@[0]@ == filename@,
            r@[1]@ == "images/"@ + filename@,
    {
        let mut list: Vec<String> = Vec::new();
        list.push(filename.to_owned());
        let mut base = String::new();
        base.append("images/");
        base.append(filename);
        proof {
            assert(base@ == "images/"@ + filename@);
        }
        list.push(base);
        let mut up: usize = 1;
        while up <= 6
            invariant
                1 <= up <= 7,
                list@.len() == 1 + up,
                list@[0]@ == filename@,
                list@[1]@ == "images/"@ + filename@,
            decreases 7 - up,
        {
            let mut pathbuf = String::new();
            let mut k: usize = 0;
            while k < up
                invariant
                    k <= up,
                decreases up - k,
            {
                pathbuf.append("../");
                k = k + 1;
            }
            pathbuf.append("images/");
            pathbuf.append(filename);
            list.push(pathbuf);
            up = up + 1;
        }
        list
    }
}

} // verus!
