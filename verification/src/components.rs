//! Plain components that are attached to entities of a scene.

use vstd::prelude::*;

verus! {

/// How the resolution of the render target follows the window.
#[derive(PartialEq, Eq, Structural, Debug, Clone, Copy)]
pub enum TargetResolutionUpdate {
    Fixed,
    WindowSize,
}

impl Default for TargetResolutionUpdate {
    fn default() -> (r: Self)
        ensures
            r == TargetResolutionUpdate::WindowSize,
    {
        TargetResolutionUpdate::WindowSize
    }
}

/// Resolution of the render target and the way it is kept up to date.
pub struct TargetResolution {
    pub width: u32,
    pub height: u32,
    pub update_mode: TargetResolutionUpdate,
}

impl Default for TargetResolution {
    fn default() -> (r: Self)
        ensures
            r.width == 0,
            r.height == 0,
            r.update_mode == TargetResolutionUpdate::WindowSize,
    {
        TargetResolution { width: 0, height: 0, update_mode: TargetResolutionUpdate::WindowSize }
    }
}


/// What mouse dragging does to the camera.
#[derive(PartialEq, Eq, Structural, Debug, Clone, Copy)]
pub enum CamMode {
    Rotation,
    Translation,
}

/// How an entity shown as a point cloud is coloured.
#[derive(PartialEq, Eq, Structural, Debug, Clone, Copy)]
pub enum PointColorType {
    Solid,
    PerVert,
}

/// How an entity shown as lines is coloured.
#[derive(PartialEq, Eq, Structural, Debug, Clone, Copy)]
pub enum LineColorType {
    Solid,
    PerVert,
}

/// How an entity shown as a mesh is coloured.
#[derive(PartialEq, Eq, Structural, Debug, Clone, Copy)]
pub enum MeshColorType {
    Solid,
    PerVert,
    Texture,
    UV,
    Normal,
    NormalViewCoords,
}

/// The number that stands for a point colouring in serialised form.
pub open spec fn point_color_code(c: PointColorType) -> u8 {
    match c {
        PointColorType::Solid => 0,
        PointColorType::PerVert => 1,
    }
}

/// The number that stands for a line colouring in serialised form.
pub open spec fn line_color_code(c: LineColorType) -> u8 {
    match c {
        LineColorType::Solid => 0,
        LineColorType::PerVert => 1,
    }
}

/// The number that stands for a mesh colouring in serialised form.
pub open spec fn mesh_color_code(c: MeshColorType) -> u8 {
    match c {
        MeshColorType::Solid => 0,
        MeshColorType::PerVert => 1,
        MeshColorType::Texture => 2,
        MeshColorType::UV => 3,
        MeshColorType::Normal => 4,
        MeshColorType::NormalViewCoords => 5,
    }
}

impl PointColorType {
    /// The number of this colouring (its position among the variants).
    pub fn as_u8(self) -> (r: u8)
        ensures
            r == point_color_code(self),
    {
        match self {
            PointColorType::Solid => 0,
            PointColorType::PerVert => 1,
        }
    }

    /// The colouring with this number, if there is one.
    pub fn from_u8(code: u8) -> (r: Option<PointColorType>)
        ensures
            r matches Some(c) ==> point_color_code(c) == code,
            r is None <==> code >= 2,
    {
        match code {
            0 => Some(PointColorType::Solid),
            1 => Some(PointColorType::PerVert),
            _ => None,
        }
    }
}

impl LineColorType {
    /// The number of this colouring (its position among the variants).
    pub fn as_u8(self) -> (r: u8)
        ensures
            r == line_color_code(self),
    {
        match self {
            LineColorType::Solid => 0,
            LineColorType::PerVert => 1,
        }
    }

    /// The colouring with this number, if there is one.
    pub fn from_u8(code: u8) -> (r: Option<LineColorType>)
        ensures
            r matches Some(c) ==> line_color_code(c) == code,
            r is None <==> code >= 2,
    {
        match code {
            0 => Some(LineColorType::Solid),
            1 => Some(LineColorType::PerVert),
            _ => None,
        }
    }
}

impl MeshColorType {
    /// The number of this colouring (its position among the variants).
    pub fn as_u8(self) -> (r: u8)
        ensures
            r == mesh_color_code(self),
    {
        match self {
            MeshColorType::Solid => 0,
            MeshColorType::PerVert => 1,
            MeshColorType::Texture => 2,
            MeshColorType::UV => 3,
            MeshColorType::Normal => 4,
            MeshColorType::NormalViewCoords => 5,
        }
    }

    /// The colouring with this number, if there is one.
    pub fn from_u8(code: u8) -> (r: Option<MeshColorType>)
        ensures
            r matches Some(c) ==> mesh_color_code(c) == code,
            r is None <==> code >= 6,
    {
        match code {
            0 => Some(MeshColorType::Solid),
            1 => Some(MeshColorType::PerVert),
            2 => Some(MeshColorType::Texture),
            3 => Some(MeshColorType::UV),
            4 => Some(MeshColorType::Normal),
            5 => Some(MeshColorType::NormalViewCoords),
            _ => None,
        }
    }
}

/// The number of a colouring is its discriminant: the variants are numbered
/// from 0 in the order they are declared, `Solid` first.
pub proof fn law_color_codes_are_the_declared_discriminants()
    ensures
        point_color_code(PointColorType::Solid) == 0,
        point_color_code(PointColorType::PerVert) == 1,
        line_color_code(LineColorType::Solid) == 0,
        line_color_code(LineColorType::PerVert) == 1,
        mesh_color_code(MeshColorType::Solid) == 0,
        mesh_color_code(MeshColorType::PerVert) == 1,
        mesh_color_code(MeshColorType::Texture) == 2,
        mesh_color_code(MeshColorType::UV) == 3,
        mesh_color_code(MeshColorType::Normal) == 4,
        mesh_color_code(MeshColorType::NormalViewCoords) == 5,
{
}

/// A colouring survives its serialised form: each colouring has its own
/// number, and that number reads back as the same colouring.
pub proof fn law_color_codes_roundtrip(p: PointColorType, l: LineColorType, m: MeshColorType)
    ensures
        point_color_code(p) < 2,
        line_color_code(l) < 2,
        mesh_color_code(m) < 6,
        forall|q: PointColorType| point_color_code(q) == point_color_code(p) ==> q == p,
        forall|q: LineColorType| line_color_code(q) == line_color_code(l) ==> q == l,
        forall|q: MeshColorType| mesh_color_code(q) == mesh_color_code(m) ==> q == m,
{
}

/// How an image is kept and uploaded.
#[derive(PartialEq, Eq, Structural, Debug, Clone, Copy)]
pub struct ImgConfig {
    pub keep_on_cpu: bool,
    /// Uses wgpu's staging memory: faster, possibly at the cost of memory.
    pub fast_upload: bool,
    pub generate_mipmaps: bool,
    pub mipmap_generation_cpu: bool,
}

impl Default for ImgConfig {
    fn default() -> (r: Self)
        ensures
            r == (ImgConfig {
                keep_on_cpu: true,
                fast_upload: true,
                generate_mipmaps: true,
                mipmap_generation_cpu: false,
            }),
    {
        ImgConfig { keep_on_cpu: true, fast_upload: true, generate_mipmaps: true, mipmap_generation_cpu: false }
    }
}

/// Environment lighting from prefiltered diffuse and specular cubemaps.
pub struct EnvironmentMap {
    pub diffuse_path: String,
    pub specular_path: String,
}

impl EnvironmentMap {
    pub fn new_from_path(diffuse_path: &str, specular_path: &str) -> (r: Self)
        ensures
            r.diffuse_path@ == diffuse_path@,
            r.specular_path@ == specular_path@,
    {
        EnvironmentMap { diffuse_path: diffuse_path.to_owned(), specular_path: specular_path.to_owned() }
    }
}

/// The unique name of an entity.
pub struct Name(pub String);

/// For each face after reindexing, the index it had in the file it was read
/// from.
pub struct FacesOriginalIndex(pub Vec<u32>);

/// Marks an entity that is rendered to the screen.
pub struct Renderable;

/// Marks an entity whose change requires the shadow maps to be redrawn.
pub struct ShadowMapDirty;

/// Marks an entity that is only shown in the GUI.
pub struct OnGui;

} // verus!
