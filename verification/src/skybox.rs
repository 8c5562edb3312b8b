//! Descriptions of the sky drawn behind the scene: six cubemap face images,
//! or one equirectangular image converted into a cubemap once it is loaded.
use vstd::prelude::*;

verus! {

/// Where the pixels of a skybox come from.
pub enum SkyboxSource {
    /// Six face images in the order `+X`, `-X`, `+Y`, `-Y`, `+Z`, `-Z`.
    Cubemap { face_urls: [String; 6] },
    /// A Radiance (`.hdr`) equirectangular image, converted into faces of
    /// `face_size` x `face_size` pixels.
    Hdr { url: String, face_size: u32 },
    /// A browser-decodable equirectangular image, converted into faces of
    /// `face_size` x `face_size` pixels.
    Equirectangular { url: String, face_size: u32 },
}

/// The side, in pixels, of the faces converted from an equirectangular
/// image when no size is asked for.
pub const DEFAULT_FACE_SIZE: u32 = 1024;

/// A skybox to be drawn before the scene.
pub struct Skybox {
    source: SkyboxSource,
}

impl Skybox {
    /// Where this skybox takes its pixels from.
    pub closed spec fn source_spec(&self) -> SkyboxSource {
        self.source
    }

    /// A skybox whose converted faces always have at least one pixel.
    pub open spec fn well_formed(&self) -> bool {
        match self.source_spec() {
            SkyboxSource::Cubemap { .. } => true,
            SkyboxSource::Hdr { face_size, .. } => face_size >= 1,
            SkyboxSource::Equirectangular { face_size, .. } => face_size >= 1,
        }
    }

    /// A skybox made of six face images, `+X`, `-X`, `+Y`, `-Y`, `+Z`, `-Z`.
    pub fn cubemap_from_urls(face_urls: [String; 6]) -> (r: Self)
        ensures
            r.source_spec() == (SkyboxSource::Cubemap { face_urls }),
            r.well_formed(),
    {
        Skybox { source: SkyboxSource::Cubemap { face_urls } }
    }

    /// A skybox converted from a Radiance image into faces of 1024 x 1024
    /// pixels.
    pub fn hdri_from_url(url: String) -> (r: Self)
        ensures
            r.source_spec() == (SkyboxSource::Hdr { url, face_size: DEFAULT_FACE_SIZE }),
            r.well_formed(),
    {
        Self::hdri_from_url_with_face_size(url, DEFAULT_FACE_SIZE)
    }

    /// A skybox converted from a Radiance image into faces of `face_size`
    /// pixels a side, and of one pixel when `face_size` is 0.
    pub fn hdri_from_url_with_face_size(url: String, face_size: u32) -> (r: Self)
        ensures
            r.source_spec() == (SkyboxSource::Hdr {
                url,
                face_size: if face_size == 0 {
                    1
                } else {
                    face_size
                },
            }),
            r.well_formed(),
    {
        let face_size = if face_size == 0 {
            1
        } else {
            face_size
        };
        Skybox { source: SkyboxSource::Hdr { url, face_size } }
    }

    /// Where this skybox takes its pixels from.
    pub fn source(&self) -> (r: &SkyboxSource)
        ensures
            *r == self.source_spec(),
    {
        &self.source
    }
}

impl Default for Skybox {
    /// The six face images `/skybox/px.jpg`, `nx`, `py`, `ny`, `pz` and `nz`.
    fn default() -> (r: Self)
        ensures
            r.source_spec() matches SkyboxSource::Cubemap { face_urls } && face_urls[0]@
                == "/skybox/px.jpg"@ && face_urls[1]@ == "/skybox/nx.jpg"@ && face_urls[2]@
                == "/skybox/py.jpg"@ && face_urls[3]@ == "/skybox/ny.jpg"@ && face_urls[4]@
                == "/skybox/pz.jpg"@ && face_urls[5]@ == "/skybox/nz.jpg"@,
    {
        Self::cubemap_from_urls(
            [
                "/skybox/px.jpg".to_string(),
                "/skybox/nx.jpg".to_string(),
                "/skybox/py.jpg".to_string(),
                "/skybox/ny.jpg".to_string(),
                "/skybox/pz.jpg".to_string(),
                "/skybox/nz.jpg".to_string(),
            ],
        )
    }
}

} // verus!
