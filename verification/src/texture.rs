use vstd::prelude::*;

use crate::color::ColorR;
use crate::rat::Rat;
use crate::rat::Sc;

verus! {

/// A decoded 8-bit RGB bitmap: three bytes per pixel, row-major.
#[derive(Clone, Debug)]
pub struct PixelBuffer {
    pub data: Vec<u8>,
    pub width: usize,
    pub height: usize,
}

impl PixelBuffer {
    pub open spec fn wf(self) -> bool {
        &&& 1 <= self.width < 32768
        &&& 1 <= self.height < 32768
        &&& self.data.len() == 3 * self.width * self.height
    }
}

/// Surface texture: a uniform color, or a lookup into a decoded bitmap held
/// in the scene's image store (referenced by index, so materials stay plain
/// values).  Procedural textures that need transcendental functions (the
/// sine-based checker and the turbulence-driven marble) live outside the
/// exact kernel.
#[derive(Clone, Copy, Debug)]
pub enum SurfaceTexture {
    Solid(ColorR),
    Image { image_id: usize, width: usize, height: usize },
}

impl SurfaceTexture {
    pub open spec fn wf(self) -> bool {
        match self {
            SurfaceTexture::Solid(c) => c.wf(),
            SurfaceTexture::Image { image_id, width, height } => 1 <= width < 32768 && 1 <= height
                < 32768,
        }
    }
}

/// A surface coordinate clamped into `[0, 1]`.
pub open spec fn clamp01(x: Sc) -> Sc {
    if x.n <= 0 {
        Sc { n: 0, d: 1 }
    } else if x.n >= x.d {
        Sc { n: 1, d: 1 }
    } else {
        x
    }
}

/// Pixel column of a clamped `u`: `floor(u * width)`, capped at the edge.
pub open spec fn img_col(u: Sc, w: int) -> int {
    let cu = clamp01(u);
    let i = cu.n * w / cu.d;
    if i >= w {
        w - 1
    } else {
        i
    }
}

fn clamp01_exec(x: &Rat) -> (r: Rat)
    requires
        x.wf(),
        x.den <= crate::rat::DEN_BOUND * crate::rat::DEN_BOUND,
    ensures
        r.wf(),
        r.v() == clamp01(x.v()),
        0 <= r.num <= r.den <= crate::rat::DEN_BOUND * crate::rat::DEN_BOUND,
{
    if x.num <= 0 {
        Rat { num: 0, den: 1 }
    } else if x.num >= x.den {
        Rat { num: 1, den: 1 }
    } else {
        *x
    }
}

fn col_of(u: &Rat, w: usize) -> (i: usize)
    requires
        u.wf(),
        u.den <= crate::rat::DEN_BOUND * crate::rat::DEN_BOUND,
        1 <= w < 32768,
    ensures
        i as int == img_col(u.v(), w as int),
        i < w,
{
    let cu = clamp01_exec(u);
    proof {
        crate::vec3::lemma_prod_bound2(
            cu.num as int,
            w as int,
            crate::rat::DEN_BOUND as int * crate::rat::DEN_BOUND as int,
            32768,
        );
        assert(0 <= (cu.num as int) * (w as int) / (cu.den as int) <= (cu.num as int) * (
        w as int)) by (nonlinear_arith)
            requires
                0 <= (cu.num as int) * (w as int),
                0 < cu.den as int,
        ;
    }
    let i = (cu.num * (w as i128)) / cu.den;
    if i >= w as i128 {
        w - 1
    } else {
        i as usize
    }
}

/// The black fallback for missing or malformed bitmaps.
pub open spec fn spec_black() -> ColorR {
    ColorR {
        r: Rat { num: 0, den: 1 },
        g: Rat { num: 0, den: 1 },
        b: Rat { num: 0, den: 1 },
    }
}

/// The color a texture denotes at surface coordinates `(u, v)`, as a ghost
/// value: a solid texture is its color; a bitmap lookup clamps the
/// coordinates, flips `v`, scales to pixel indices and reads one RGB
/// triple; a missing or malformed bitmap reads as black.
pub open spec fn spec_texture_color(
    tex: SurfaceTexture,
    u: Sc,
    v: Sc,
    images: Seq<PixelBuffer>,
) -> ColorR {
    match tex {
        SurfaceTexture::Solid(col) => col,
        SurfaceTexture::Image { image_id, width, height } => {
            if image_id < images.len() && images[image_id as int].width == width
                && images[image_id as int].height == height && 1 <= width && width < 32768
                && 1 <= height && height < 32768 && images[image_id as int].data.len() == 3 * width
                * height {
                let buf = images[image_id as int];
                let i = img_col(u, width as int);
                let cv = clamp01(v);
                let j = img_col(Sc { n: cv.d - cv.n, d: cv.d }, height as int);
                let base = 3 * (j * width + i);
                ColorR {
                    r: Rat { num: buf.data[base] as i128, den: 255 },
                    g: Rat { num: buf.data[base + 1] as i128, den: 255 },
                    b: Rat { num: buf.data[base + 2] as i128, den: 255 },
                }
            } else {
                spec_black()
            }
        },
    }
}

/// The color of a texture at a surface point, exactly the ghost value
/// `spec_texture_color`.
pub fn texture_value(tex: &SurfaceTexture, u: &Rat, v: &Rat, images: &Vec<PixelBuffer>) -> (c:
    ColorR)
    requires
        tex.wf(),
        u.wf(),
        u.den <= crate::rat::DEN_BOUND * crate::rat::DEN_BOUND,
        v.wf(),
        v.den <= crate::rat::DEN_BOUND * crate::rat::DEN_BOUND,
    ensures
        c.wf(),
        c == spec_texture_color(*tex, u.v(), v.v(), images@),
{
    match tex {
        SurfaceTexture::Solid(col) => *col,
        SurfaceTexture::Image { image_id, width, height } => {
            if *image_id >= images.len() {
                return ColorR::black();
            }
            let buf = &images[*image_id];
            if !(buf.width == *width && buf.height == *height && *width >= 1 && *width < 32768
                && buf.height >= 1 && buf.height < 32768) {
                return ColorR::black();
            }
            proof {
                assert(3 * (buf.width as int) * (buf.height as int) < 0xC000_0000)
                    by (nonlinear_arith)
                    requires
                        1 <= buf.width < 32768,
                        1 <= buf.height < 32768,
                ;
            }
            if buf.data.len() != 3 * buf.width * buf.height {
                return ColorR::black();
            }
            let i = col_of(u, buf.width);
            let cv = clamp01_exec(v);
            let flipped = Rat { num: cv.den - cv.num, den: cv.den };
            let j = col_of(&flipped, buf.height);
            proof {
                assert(3 * (j * buf.width + i) + 2 < 3 * buf.width * buf.height)
                    by (nonlinear_arith)
                    requires
                        i < buf.width,
                        j < buf.height,
                        1 <= buf.width < 32768,
                        1 <= buf.height < 32768,
                ;
                assert(j * buf.width + i < 0x4000_0000) by (nonlinear_arith)
                    requires
                        i < buf.width,
                        j < buf.height,
                        1 <= buf.width < 32768,
                        1 <= buf.height < 32768,
                ;
            }
            let base = 3 * (j * buf.width + i);
            let r = buf.data[base];
            let g = buf.data[base + 1];
            let b = buf.data[base + 2];
            ColorR {
                r: Rat { num: r as i128, den: 255 },
                g: Rat { num: g as i128, den: 255 },
                b: Rat { num: b as i128, den: 255 },
            }
        },
    }
}

} // verus!
