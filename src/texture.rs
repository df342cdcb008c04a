//! How a bitmap's pixel data is laid out for upload, and the byte work
//! done on it before upload.
use vstd::arithmetic::div_mod::lemma_fundamental_div_mod_converse;
use vstd::prelude::*;

verus! {

/// The console a bitmap was authored for, as far as its layout depends
/// on it.
#[derive(Clone, Copy, PartialEq, Eq, Structural, Debug)]
pub enum Platform {
    X360,
    PS3,
    Other,
}

/// The pixel format a texture is uploaded in.
#[derive(Clone, Copy, PartialEq, Eq, Structural, Debug)]
pub enum PixelFormat {
    /// DXT1 blocks.
    Bc1,
    /// DXT5 blocks.
    Bc3,
    /// ATI2 blocks.
    Bc5,
    /// Decoded 8-bit RGBA.
    Rgba8,
}

/// How a bitmap's data is prepared and uploaded.
#[derive(Clone, Copy, PartialEq, Eq, Structural, Debug)]
pub struct TextureLayout {
    pub format: PixelFormat,
    /// Bits per pixel of the uploaded data.
    pub bits_per_pixel: u8,
    /// The raw data has its bytes swapped in pairs first.
    pub swap_bytes: bool,
    /// The bitmap is decoded to RGBA first; the raw data is not uploaded.
    pub decode_rgba: bool,
}

/// True for the encodings that the X360 and PS3 keep as GPU blocks.
pub open spec fn is_block_encoding(encoding: u8) -> bool {
    encoding == 8 || encoding == 24 || encoding == 32
}

/// The layout for a bitmap of `platform` with `encoding` and `bpp` bits
/// per pixel.
pub open spec fn layout_of(platform: Platform, encoding: u8, bpp: u8) -> TextureLayout {
    if (platform == Platform::X360 || platform == Platform::PS3) && is_block_encoding(encoding) {
        TextureLayout {
            format: if encoding == 24 {
                PixelFormat::Bc3
            } else if encoding == 32 {
                PixelFormat::Bc5
            } else {
                PixelFormat::Bc1
            },
            bits_per_pixel: bpp,
            swap_bytes: platform == Platform::X360,
            decode_rgba: false,
        }
    } else {
        TextureLayout {
            format: PixelFormat::Rgba8,
            bits_per_pixel: 32,
            swap_bytes: false,
            decode_rgba: true,
        }
    }
}

/// Chooses how a bitmap is prepared: X360 and PS3 block encodings are
/// uploaded as they are (byte-swapped on the X360), everything else is
/// decoded to RGBA.
pub fn texture_layout(platform: Platform, encoding: u8, bpp: u8) -> (r: TextureLayout)
    ensures
        r == layout_of(platform, encoding, bpp),
{
    let console = match platform {
        Platform::X360 => true,
        Platform::PS3 => true,
        Platform::Other => false,
    };
    if console && (encoding == 8 || encoding == 24 || encoding == 32) {
        let format = if encoding == 24 {
            PixelFormat::Bc3
        } else if encoding == 32 {
            PixelFormat::Bc5
        } else {
            PixelFormat::Bc1
        };
        let swap_bytes = match platform {
            Platform::X360 => true,
            _ => false,
        };
        TextureLayout { format, bits_per_pixel: bpp, swap_bytes, decode_rgba: false }
    } else {
        TextureLayout {
            format: PixelFormat::Rgba8,
            bits_per_pixel: 32,
            swap_bytes: false,
            decode_rgba: true,
        }
    }
}

/// The number of bytes of the top mip level of a `width` by `height`
/// texture at `bpp` bits per pixel.
pub fn texture_byte_size(width: u16, height: u16, bpp: u8) -> (r: u64)
    ensures
        r == (width as int) * (height as int) * (bpp as int) / 8,
{
    let w = width as u64;
    let h = height as u64;
    let b = bpp as u64;
    assert(w * h <= 65535 * 65535) by (nonlinear_arith)
        requires
            w <= 65535,
            h <= 65535,
    ;
    assert(w * h * b <= 65535 * 65535 * 255) by (nonlinear_arith)
        requires
            w * h <= 65535 * 65535,
            b <= 255,
    ;
    w * h * b / 8
}

/// Swaps the bytes of `data` in pairs.
pub fn swap_byte_pairs(data: &mut Vec<u8>)
    requires
        old(data)@.len() % 2 == 0,
    ensures
        final(data)@.len() == old(data)@.len(),
        forall|k: int|
            0 <= k < old(data)@.len() ==> #[trigger] final(data)@[k] == if k % 2 == 0 {
                old(data)@[k + 1]
            } else {
                old(data)@[k - 1]
            },
{
    let ghost start = data@;
    let mut k: usize = 0;
    while k < data.len()
        invariant
            data@.len() == start.len(),
            start.len() % 2 == 0,
            k <= start.len(),
            k % 2 == 0,
            forall|j: int|
                0 <= j < k ==> #[trigger] data@[j] == if j % 2 == 0 {
                    start[j + 1]
                } else {
                    start[j - 1]
                },
            forall|j: int| k <= j < start.len() ==> #[trigger] data@[j] == start[j],
        decreases start.len() - k,
    {
        let a = data[k];
        let b = data[k + 1];
        data.set(k, b);
        data.set(k + 1, a);
        k = k + 2;
    }
}

/// Fills `buffer` with copies of `pattern`, one after another, as far as
/// whole copies fit; the bytes after the last whole copy stay.
pub fn fill_repeating(buffer: &mut Vec<u8>, pattern: &Vec<u8>)
    requires
        pattern@.len() > 0,
    ensures
        final(buffer)@.len() == old(buffer)@.len(),
        forall|k: int|
            0 <= k < (old(buffer)@.len() / pattern@.len()) * pattern@.len()
                ==> #[trigger] final(buffer)@[k] == pattern@[k % (pattern@.len() as int)],
        forall|k: int|
            (old(buffer)@.len() / pattern@.len()) * pattern@.len() <= k < old(buffer)@.len()
                ==> #[trigger] final(buffer)@[k] == old(buffer)@[k],
{
    let ghost start = buffer@;
    let n = buffer.len();
    let m = pattern.len();
    let mut base: usize = 0;
    let ghost mut copies: int = 0;
    while m <= n - base
        invariant
            buffer@.len() == n,
            n == start.len(),
            m == pattern@.len(),
            m > 0,
            base <= n,
            base == copies * m,
            copies >= 0,
            forall|k: int| 0 <= k < base ==> #[trigger] buffer@[k] == pattern@[k % (m as int)],
            forall|k: int| base <= k < n ==> #[trigger] buffer@[k] == start[k],
        decreases n - base,
    {
        let mut j: usize = 0;
        while j < m
            invariant
                buffer@.len() == n,
                n == start.len(),
                m == pattern@.len(),
                m > 0,
                base + m <= n,
                base == copies * m,
                copies >= 0,
                j <= m,
                forall|k: int| 0 <= k < base ==> #[trigger] buffer@[k] == pattern@[k % (m as int)],
                forall|k: int| base <= k < base + j ==> #[trigger] buffer@[k] == pattern@[k - base],
                forall|k: int| base + j <= k < n ==> #[trigger] buffer@[k] == start[k],
            decreases m - j,
        {
            buffer.set(base + j, pattern[j]);
            j = j + 1;
        }
        assert forall|k: int| base <= k < base + m implies #[trigger] buffer@[k] == pattern@[k % (
        m as int)] by {
            lemma_fundamental_div_mod_converse(k, m as int, copies, k - base);
        }
        base = base + m;
        proof {
            copies = copies + 1;
            assert(base == copies * m) by (nonlinear_arith)
                requires
                    base == (copies - 1) * m + m,
            ;
        }
    }
    proof {
        lemma_fundamental_div_mod_converse(n as int, m as int, copies, n - base);
    }
}

/// The texture names a material refers to.
pub struct MaterialTextures {
    pub name: String,
    pub diffuse: String,
    pub normal: String,
    pub emissive: String,
}

/// A texture of a loaded batch.
pub struct TextureRecord {
    pub name: String,
    /// The texture carries bitmap data.
    pub has_bitmap: bool,
}

/// True when some mesh uses a material named `name`.
pub open spec fn material_used(mesh_materials: Seq<String>, name: Seq<char>) -> bool {
    exists|k: int| 0 <= k < mesh_materials.len() && (#[trigger] mesh_materials[k])@ == name
}

/// True when `m` refers to a texture named `t`.
pub open spec fn refers_to(m: MaterialTextures, t: Seq<char>) -> bool {
    m.diffuse@ == t || m.normal@ == t || m.emissive@ == t
}

/// True when a material that some mesh uses refers to a texture named `t`.
pub open spec fn texture_referenced(
    mesh_materials: Seq<String>,
    materials: Seq<MaterialTextures>,
    t: Seq<char>,
) -> bool {
    exists|m: int|
        0 <= m < materials.len() && material_used(mesh_materials, (#[trigger] materials[m]).name@)
            && refers_to(materials[m], t)
}

/// True when texture `t` is decoded for the batch: it has bitmap data, it
/// is the first texture of its name, and a used material refers to it.
pub open spec fn texture_wanted(
    mesh_materials: Seq<String>,
    materials: Seq<MaterialTextures>,
    textures: Seq<TextureRecord>,
    t: int,
) -> bool {
    &&& 0 <= t < textures.len()
    &&& textures[t].has_bitmap
    &&& forall|j: int| 0 <= j < t ==> (#[trigger] textures[j]).name@ != textures[t].name@
    &&& texture_referenced(mesh_materials, materials, textures[t].name@)
}

fn is_material_used(mesh_materials: &Vec<String>, name: &String) -> (r: bool)
    ensures
        r == material_used(mesh_materials@, name@),
{
    let mut k: usize = 0;
    while k < mesh_materials.len()
        invariant
            k <= mesh_materials@.len(),
            forall|j: int| 0 <= j < k ==> (#[trigger] mesh_materials@[j])@ != name@,
        decreases mesh_materials@.len() - k,
    {
        if mesh_materials[k] == *name {
            return true;
        }
        k = k + 1;
    }
    false
}

fn is_texture_referenced(
    mesh_materials: &Vec<String>,
    materials: &Vec<MaterialTextures>,
    t: &String,
) -> (r: bool)
    ensures
        r == texture_referenced(mesh_materials@, materials@, t@),
{
    let mut m: usize = 0;
    while m < materials.len()
        invariant
            m <= materials@.len(),
            forall|j: int|
                0 <= j < m ==> !(material_used(mesh_materials@, (#[trigger] materials@[j]).name@)
                    && refers_to(materials@[j], t@)),
        decreases materials@.len() - m,
    {
        let mat = &materials[m];
        if (mat.diffuse == *t || mat.normal == *t || mat.emissive == *t) && is_material_used(
            mesh_materials,
            &mat.name,
        ) {
            return true;
        }
        m = m + 1;
    }
    false
}

fn is_first_of_name(textures: &Vec<TextureRecord>, t: usize) -> (r: bool)
    requires
        t < textures@.len(),
    ensures
        r == forall|j: int| 0 <= j < t ==> (#[trigger] textures@[j]).name@ != textures@[t as int].name@,
{
    let mut j: usize = 0;
    while j < t
        invariant
            j <= t < textures@.len(),
            forall|i: int| 0 <= i < j ==> (#[trigger] textures@[i]).name@ != textures@[t as int].name@,
        decreases t - j,
    {
        if textures[j].name == textures[t].name {
            return false;
        }
        j = j + 1;
    }
    true
}

/// The textures a batch decodes, in increasing order: those with bitmap
/// data that a material used by some mesh refers to, once per name.
pub fn textures_to_load(
    mesh_materials: &Vec<String>,
    materials: &Vec<MaterialTextures>,
    textures: &Vec<TextureRecord>,
) -> (r: Vec<usize>)
    ensures
        forall|i: int, j: int| 0 <= i < j < r@.len() ==> r@[i] < r@[j],
        forall|i: int|
            0 <= i < r@.len() ==> texture_wanted(mesh_materials@, materials@, textures@, #[trigger] r@[i] as int),
        forall|t: int|
            texture_wanted(mesh_materials@, materials@, textures@, t) ==> #[trigger] r@.contains(t as usize),
{
    let mut r: Vec<usize> = Vec::new();
    let mut t: usize = 0;
    while t < textures.len()
        invariant
            t <= textures@.len(),
            forall|i: int, j: int| 0 <= i < j < r@.len() ==> r@[i] < r@[j],
            forall|i: int| 0 <= i < r@.len() ==> r@[i] < t,
            forall|i: int|
                0 <= i < r@.len() ==> texture_wanted(mesh_materials@, materials@, textures@, #[trigger] r@[i] as int),
            forall|u: int|
                0 <= u < t && texture_wanted(mesh_materials@, materials@, textures@, u) ==> #[trigger] r@.contains(u as usize),
        decreases textures@.len() - t,
    {
        let tex = &textures[t];
        if tex.has_bitmap && is_first_of_name(textures, t) && is_texture_referenced(
            mesh_materials,
            materials,
            &tex.name,
        ) {
            let ghost before = r@;
            r.push(t);
            proof {
                assert forall|u: int|
                    0 <= u < t + 1 && texture_wanted(mesh_materials@, materials@, textures@, u)
                    implies #[trigger] r@.contains(u as usize) by {
                    if u < t {
                        assert(before.contains(u as usize));
                        let i = choose|i: int| 0 <= i < before.len() && before[i] == u as usize;
                        assert(r@[i] == u as usize);
                    } else {
                        assert(r@[before.len() as int] == u as usize);
                        assert(r@.contains(u as usize));
                    }
                }
            }
        }
        t = t + 1;
    }
    r
}

/// True when a mesh is placed: it has vertices, and its name does not
/// start with `shadow`.
pub open spec fn mesh_placed(name: Seq<char>, vertex_count: nat) -> bool {
    vertex_count > 0 && !"shadow"@.is_prefix_of(name)
}

/// Whether a mesh is placed at all: shadow meshes and meshes without
/// vertices are skipped.
pub fn is_mesh_placed(name: &str, vertex_count: usize) -> (r: bool)
    ensures
        r == mesh_placed(name@, vertex_count as nat),
{
    vertex_count > 0 && !crate::archive::starts_with(name, "shadow")
}

} // verus!
