//! Settings of render targets: size, format, usage and multisampling.

use vstd::prelude::*;

verus! {

/// Number of samples for each pixel.
#[derive(Debug, Clone, Copy, PartialEq, Eq, Structural)]
pub enum MsaaSampleLevel {
    One,
    Four,
    Eight,
}

impl MsaaSampleLevel {
    /// The number of samples: 1, 4 or 8.
    pub open spec fn samples(&self) -> u32 {
        match *self {
            MsaaSampleLevel::One => 1,
            MsaaSampleLevel::Four => 4,
            MsaaSampleLevel::Eight => 8,
        }
    }

    /// The number of samples: 1, 4 or 8.
    pub fn sample_count(&self) -> (n: u32)
        ensures
            n == self.samples(),
    {
        match self {
            MsaaSampleLevel::One => 1,
            MsaaSampleLevel::Four => 4,
            MsaaSampleLevel::Eight => 8,
        }
    }
}

/// The layout of the pixels of a texture.
#[derive(Debug, Clone, Copy, PartialEq, Eq, Structural, Hash)]
pub enum TextureFormat {
    Rgba8Unorm,
    Rgba8UnormSrgb,
    Bgra8Unorm,
    Bgra8UnormSrgb,
    R8Unorm,
}

/// What a texture may be used for: a set of flags.
#[derive(Debug, Clone, Copy, PartialEq, Eq, Structural, Hash)]
pub struct TextureUsages {
    pub bits: u32,
}

/// The flag of textures that are copied from.
pub const COPY_SRC: u32 = 1;

/// The flag of textures that are copied to.
pub const COPY_DST: u32 = 2;

/// The flag of textures that shaders read.
pub const TEXTURE_BINDING: u32 = 4;

/// The flag of textures that shaders write.
pub const STORAGE_BINDING: u32 = 8;

/// The flag of textures that are rendered to.
pub const RENDER_ATTACHMENT: u32 = 16;

impl TextureUsages {
    /// The usage of textures that are rendered to.
    pub fn render_attachment() -> (u: TextureUsages)
        ensures
            u.bits == RENDER_ATTACHMENT,
    {
        TextureUsages { bits: RENDER_ATTACHMENT }
    }

    /// The usages of `self` and of `other` together.
    pub fn union(self, other: TextureUsages) -> (u: TextureUsages)
        ensures
            u.bits == self.bits | other.bits,
    {
        TextureUsages { bits: self.bits | other.bits }
    }

    /// Whether every usage of `other` is one of `self`.
    pub fn contains(&self, other: TextureUsages) -> (r: bool)
        ensures
            r == (self.bits & other.bits == other.bits),
    {
        self.bits & other.bits == other.bits
    }
}

/// The larger of `v` and 1.
pub open spec fn at_least_one(v: u32) -> u32 {
    if v < 1 {
        1
    } else {
        v
    }
}

/// What a surface is made with.
#[derive(Debug, Clone, Copy, PartialEq, Eq, Structural)]
pub struct GpuSurfaceSpecification {
    pub width: u32,
    pub height: u32,
}

/// The settings of the target that a canvas renders to. Width and height
/// are at least 1.
#[derive(Debug, Clone, Copy, PartialEq, Eq, Structural)]
pub struct CanvasRenderingContextConfig {
    pub width: u32,
    pub height: u32,
    pub format: TextureFormat,
    pub usage: TextureUsages,
    pub msaa_sample_count: u32,
}

impl CanvasRenderingContextConfig {
    /// The default settings: one pixel, `Rgba8Unorm`, rendered to, one
    /// sample.
    pub open spec fn initial() -> CanvasRenderingContextConfig {
        CanvasRenderingContextConfig {
            width: 1,
            height: 1,
            format: TextureFormat::Rgba8Unorm,
            usage: TextureUsages { bits: RENDER_ATTACHMENT },
            msaa_sample_count: 1,
        }
    }

    /// The default settings.
    pub fn new() -> (c: Self)
        ensures
            c == Self::initial(),
    {
        CanvasRenderingContextConfig {
            width: 1,
            height: 1,
            format: TextureFormat::Rgba8Unorm,
            usage: TextureUsages::render_attachment(),
            msaa_sample_count: 1,
        }
    }

    /// The same settings with the width `width`, or 1 for a width of 0.
    pub fn width(self, width: u32) -> (c: Self)
        ensures
            c == (CanvasRenderingContextConfig { width: at_least_one(width), ..self }),
    {
        CanvasRenderingContextConfig {
            width: if width < 1 {
                1
            } else {
                width
            },
            ..self
        }
    }

    /// The same settings with the height `height`, or 1 for a height of 0.
    pub fn height(self, height: u32) -> (c: Self)
        ensures
            c == (CanvasRenderingContextConfig { height: at_least_one(height), ..self }),
    {
        CanvasRenderingContextConfig {
            height: if height < 1 {
                1
            } else {
                height
            },
            ..self
        }
    }

    /// The same settings with the usages `usage` added.
    pub fn add_surface_usage(self, usage: TextureUsages) -> (c: Self)
        ensures
            c == (CanvasRenderingContextConfig {
                usage: TextureUsages { bits: self.usage.bits | usage.bits },
                ..self
            }),
    {
        CanvasRenderingContextConfig { usage: self.usage.union(usage), ..self }
    }

    /// The same settings with the format `format`.
    pub fn surface_format(self, format: TextureFormat) -> (c: Self)
        ensures
            c == (CanvasRenderingContextConfig { format, ..self }),
    {
        CanvasRenderingContextConfig { format, ..self }
    }

    /// The same settings with the samples of `level`.
    pub fn msaa_samples(self, level: MsaaSampleLevel) -> (c: Self)
        ensures
            c == (CanvasRenderingContextConfig { msaa_sample_count: level.samples(), ..self }),
    {
        CanvasRenderingContextConfig { msaa_sample_count: level.sample_count(), ..self }
    }
}

impl Default for CanvasRenderingContextConfig {
    fn default() -> (c: Self)
        ensures
            c == Self::initial(),
    {
        CanvasRenderingContextConfig::new()
    }
}

/// The settings of a render target. Width and height are at least 1.
#[derive(Debug, Clone, Copy, PartialEq, Eq, Structural)]
pub struct RenderTargetConfig {
    pub width: u32,
    pub height: u32,
    pub format: TextureFormat,
    pub usage: TextureUsages,
    /// Whether the target is antialiased.
    pub antialias: bool,
}

impl RenderTargetConfig {
    /// The default settings: one pixel, `Rgba8Unorm`, rendered to, not
    /// antialiased.
    pub open spec fn initial() -> RenderTargetConfig {
        RenderTargetConfig {
            width: 1,
            height: 1,
            format: TextureFormat::Rgba8Unorm,
            usage: TextureUsages { bits: RENDER_ATTACHMENT },
            antialias: false,
        }
    }

    /// The default settings.
    pub fn new() -> (c: Self)
        ensures
            c == Self::initial(),
    {
        RenderTargetConfig {
            width: 1,
            height: 1,
            format: TextureFormat::Rgba8Unorm,
            usage: TextureUsages::render_attachment(),
            antialias: false,
        }
    }

    /// The same settings with the width `width`, or 1 for a width of 0.
    pub fn width(self, width: u32) -> (c: Self)
        ensures
            c == (RenderTargetConfig { width: at_least_one(width), ..self }),
    {
        RenderTargetConfig {
            width: if width < 1 {
                1
            } else {
                width
            },
            ..self
        }
    }

    /// The same settings with the height `height`, or 1 for a height of 0.
    pub fn height(self, height: u32) -> (c: Self)
        ensures
            c == (RenderTargetConfig { height: at_least_one(height), ..self }),
    {
        RenderTargetConfig {
            height: if height < 1 {
                1
            } else {
                height
            },
            ..self
        }
    }

    /// The same settings with the usages `usage` added.
    pub fn add_surface_usage(self, usage: TextureUsages) -> (c: Self)
        ensures
            c == (RenderTargetConfig {
                usage: TextureUsages { bits: self.usage.bits | usage.bits },
                ..self
            }),
    {
        RenderTargetConfig { usage: self.usage.union(usage), ..self }
    }

    /// The same settings with the format `format`.
    pub fn surface_format(self, format: TextureFormat) -> (c: Self)
        ensures
            c == (RenderTargetConfig { format, ..self }),
    {
        RenderTargetConfig { format, ..self }
    }

    /// The same settings with antialiasing switched on or off.
    pub fn antialias(self, antialias: bool) -> (c: Self)
        ensures
            c == (RenderTargetConfig { antialias, ..self }),
    {
        RenderTargetConfig { antialias, ..self }
    }
}

impl Default for RenderTargetConfig {
    fn default() -> (c: Self)
        ensures
            c == Self::initial(),
    {
        RenderTargetConfig::new()
    }
}

} // verus!
