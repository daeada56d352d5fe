//! Shader source selection: a record of shader source texts for the
//! graphics APIs and versions the renderer may meet, and the rule picking
//! the highest stored version a backend supports.

use vstd::prelude::*;

verus! {

/// A shading-language version, by major and minor number.
#[derive(Copy, Clone, PartialEq, Eq, Structural, Debug)]
pub struct GlslVersion {
    pub major: u32,
    pub minor: u32,
}

/// Shader backend with its version numbers.
#[derive(Copy, Clone, PartialEq, Eq, Structural, Debug)]
pub enum Backend {
    Glsl(GlslVersion),
    GlslEs(GlslVersion),
}

/// Error selecting a backend: no stored source fits it.
#[derive(Copy, Clone, PartialEq, Eq, Structural, Debug)]
pub struct SelectError(pub Backend);

/// A type storing shader source for different graphics APIs and versions.
#[derive(Copy, Clone, PartialEq, Debug)]
pub struct Source<'a> {
    pub glsl_120: &'a [u8],
    pub glsl_130: &'a [u8],
    pub glsl_140: &'a [u8],
    pub glsl_150: &'a [u8],
    pub glsl_330: &'a [u8],
    pub glsl_400: &'a [u8],
    pub glsl_430: &'a [u8],
    pub glsl_es_100: &'a [u8],
    pub glsl_es_200: &'a [u8],
    pub glsl_es_300: &'a [u8],
    pub hlsl_30: &'a [u8],
    pub hlsl_40: &'a [u8],
    pub hlsl_41: &'a [u8],
    pub hlsl_50: &'a [u8],
    pub msl_10: &'a [u8],
    pub msl_11: &'a [u8],
    pub vulkan: &'a [u8],
}

/// A version's combined value for threshold comparisons.
pub open spec fn glsl_value(v: GlslVersion) -> int {
    v.major * 100 + v.minor
}

/// The slice holds any source text at all.
fn nonempty(s: &[u8]) -> (r: bool)
    ensures
        r == (s@.len() > 0),
{
    s.len() > 0
}

impl<'a> Source<'a> {
    /// The desktop cascade: the highest stored GLSL source whose
    /// threshold the version value reaches, or nothing.
    pub open spec fn select_glsl_spec(self, v: int) -> Option<Seq<u8>> {
        if self.glsl_430@.len() > 0 && v >= 430 {
            Option::Some(self.glsl_430@)
        } else if self.glsl_400@.len() > 0 && v >= 400 {
            Option::Some(self.glsl_400@)
        } else if self.glsl_330@.len() > 0 && v >= 300 {
            Option::Some(self.glsl_330@)
        } else if self.glsl_150@.len() > 0 && v >= 150 {
            Option::Some(self.glsl_150@)
        } else if self.glsl_140@.len() > 0 && v >= 140 {
            Option::Some(self.glsl_140@)
        } else if self.glsl_130@.len() > 0 && v >= 130 {
            Option::Some(self.glsl_130@)
        } else if self.glsl_120@.len() > 0 && v >= 120 {
            Option::Some(self.glsl_120@)
        } else {
            Option::None
        }
    }

    /// The embedded cascade, in its stored order.
    pub open spec fn select_es_spec(self, v: int) -> Option<Seq<u8>> {
        if self.glsl_es_100@.len() > 0 && v >= 100 {
            Option::Some(self.glsl_es_100@)
        } else if self.glsl_es_200@.len() > 0 && v >= 200 {
            Option::Some(self.glsl_es_200@)
        } else if self.glsl_es_300@.len() > 0 && v >= 300 {
            Option::Some(self.glsl_es_300@)
        } else {
            Option::None
        }
    }

    /// What `select` yields for a backend.
    pub open spec fn select_spec(self, backend: Backend) -> Option<Seq<u8>> {
        match backend {
            Backend::Glsl(v) => self.select_glsl_spec(glsl_value(v)),
            Backend::GlslEs(v) => self.select_es_spec(glsl_value(v)),
        }
    }

    /// Create an empty shader source. Useful for specifying the
    /// remaining structure members upon construction.
    pub fn empty() -> (s: Source<'a>)
        ensures
            s.glsl_120@.len() == 0,
            s.glsl_130@.len() == 0,
            s.glsl_140@.len() == 0,
            s.glsl_150@.len() == 0,
            s.glsl_330@.len() == 0,
            s.glsl_400@.len() == 0,
            s.glsl_430@.len() == 0,
            s.glsl_es_100@.len() == 0,
            s.glsl_es_200@.len() == 0,
            s.glsl_es_300@.len() == 0,
            s.hlsl_30@.len() == 0,
            s.hlsl_40@.len() == 0,
            s.hlsl_41@.len() == 0,
            s.hlsl_50@.len() == 0,
            s.msl_10@.len() == 0,
            s.msl_11@.len() == 0,
            s.vulkan@.len() == 0,
    {
        Source {
            glsl_120: &[],
            glsl_130: &[],
            glsl_140: &[],
            glsl_150: &[],
            glsl_330: &[],
            glsl_400: &[],
            glsl_430: &[],
            glsl_es_100: &[],
            glsl_es_200: &[],
            glsl_es_300: &[],
            hlsl_30: &[],
            hlsl_40: &[],
            hlsl_41: &[],
            hlsl_50: &[],
            msl_10: &[],
            msl_11: &[],
            vulkan: &[],
        }
    }

    /// Pick one of the stored versions that is the highest supported by
    /// the backend.
    pub fn select(&self, backend: Backend) -> (r: Result<&'a [u8], SelectError>)
        ensures
            r is Ok <==> self.select_spec(backend) is Some,
            r is Ok ==> r.unwrap()@ == self.select_spec(backend).unwrap(),
            r is Err ==> r == Result::<&'a [u8], SelectError>::Err(SelectError(backend)),
    {
        match backend {
            Backend::Glsl(version) => {
                let v: u64 = (version.major as u64) * 100 + (version.minor as u64);
                if nonempty(self.glsl_430) && v >= 430 {
                    Ok(self.glsl_430)
                } else if nonempty(self.glsl_400) && v >= 400 {
                    Ok(self.glsl_400)
                } else if nonempty(self.glsl_330) && v >= 300 {
                    Ok(self.glsl_330)
                } else if nonempty(self.glsl_150) && v >= 150 {
                    Ok(self.glsl_150)
                } else if nonempty(self.glsl_140) && v >= 140 {
                    Ok(self.glsl_140)
                } else if nonempty(self.glsl_130) && v >= 130 {
                    Ok(self.glsl_130)
                } else if nonempty(self.glsl_120) && v >= 120 {
                    Ok(self.glsl_120)
                } else {
                    Err(SelectError(backend))
                }
            },
            Backend::GlslEs(version) => {
                let v: u64 = (version.major as u64) * 100 + (version.minor as u64);
                if nonempty(self.glsl_es_100) && v >= 100 {
                    Ok(self.glsl_es_100)
                } else if nonempty(self.glsl_es_200) && v >= 200 {
                    Ok(self.glsl_es_200)
                } else if nonempty(self.glsl_es_300) && v >= 300 {
                    Ok(self.glsl_es_300)
                } else {
                    Err(SelectError(backend))
                }
            },
        }
    }
}

} // verus!
