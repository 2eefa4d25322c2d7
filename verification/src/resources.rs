//! Choosing the texture a glTF mesh uses.

use crate::scene::MaterialData;
use crate::text::{parse_usize, parsed_usize};
use std::collections::HashMap;
use vstd::prelude::*;

verus! {

broadcast use vstd::std_specs::hash::group_hash_axioms;

/// The texture slot of a material: 0 base colour, 1 normal map,
/// 2 metallic-roughness; any other kind names none.
pub open spec fn texture_name(m: MaterialData, texture_type: u32) -> Option<String> {
    if texture_type == 0 {
        m.base_color_texture
    } else if texture_type == 1 {
        m.normal_texture
    } else if texture_type == 2 {
        m.metallic_roughness_texture
    } else {
        None
    }
}

/// The texture that a mesh with material `material_index` uses for the given
/// kind, `None` meaning the default texture: the material's slot names an
/// image by its decimal index, the image was turned into a texture, and that
/// texture exists.
pub open spec fn chosen_texture<T>(
    materials: Seq<MaterialData>,
    material_index: Option<usize>,
    image_to_texture: Map<usize, usize>,
    textures: Map<usize, T>,
    texture_type: u32,
) -> Option<usize> {
    match material_index {
        Some(mi) => if mi < materials.len() {
            match texture_name(materials[mi as int], texture_type) {
                Some(name) => match parsed_usize(name@) {
                    Some(img) => if image_to_texture.contains_key(img) && textures.contains_key(
                        image_to_texture[img],
                    ) {
                        Some(image_to_texture[img])
                    } else {
                        None
                    },
                    None => None,
                },
                None => None,
            }
        } else {
            None
        },
        None => None,
    }
}

/// Finds the texture that a glTF mesh uses for the given kind (0 base
/// colour, 1 normal map, 2 metallic-roughness); `None` means the renderer's
/// default texture.
pub fn get_texture_from_index<T>(
    materials: &Vec<MaterialData>,
    material_index: Option<usize>,
    image_to_texture: &HashMap<usize, usize>,
    textures: &HashMap<usize, T>,
    texture_type: u32,
) -> (r: Option<usize>)
    ensures
        r == chosen_texture(
            materials@,
            material_index,
            image_to_texture@,
            textures@,
            texture_type,
        ),
{
    let mi = match material_index {
        Some(mi) => mi,
        None => return None,
    };
    if mi >= materials.len() {
        return None;
    }
    let material = &materials[mi];
    let name = if texture_type == 0 {
        &material.base_color_texture
    } else if texture_type == 1 {
        &material.normal_texture
    } else if texture_type == 2 {
        &material.metallic_roughness_texture
    } else {
        return None;
    };
    let img = match name {
        Some(s) => match parse_usize(s.as_str()) {
            Some(i) => i,
            None => return None,
        },
        None => return None,
    };
    match image_to_texture.get(&img) {
        Some(t) => {
            if textures.contains_key(t) {
                Some(*t)
            } else {
                None
            }
        },
        None => None,
    }
}

/// `r` is what the texture slot `slot` leads to: the texture that the image
/// named by the slot (by its decimal index) was turned into, when the slot
/// names an image, that image has a texture and the texture exists; `None`
/// otherwise.
pub open spec fn leads_to<T>(
    slot: Option<String>,
    image_to_texture: Map<usize, usize>,
    textures: Map<usize, T>,
    r: Option<usize>,
) -> bool {
    match slot {
        None => r is None,
        Some(name) => match parsed_usize(name@) {
            None => r is None,
            Some(img) => if image_to_texture.contains_key(img) && textures.contains_key(
                image_to_texture[img],
            ) {
                r == Some(image_to_texture[img])
            } else {
                r is None
            },
        },
    }
}

/// Each texture kind reads its own slot of the mesh's material: kind 0 the
/// base-colour texture, kind 1 the normal map, kind 2 the
/// metallic-roughness texture; any other kind, a missing material index or
/// one past the list gives the default texture (`None`). Whatever is chosen
/// is an existing texture that some image was turned into.
pub proof fn law_texture_slots<T>(
    materials: Seq<MaterialData>,
    material_index: Option<usize>,
    image_to_texture: Map<usize, usize>,
    textures: Map<usize, T>,
    texture_type: u32,
)
    ensures
        ({
            let r = chosen_texture(materials, material_index, image_to_texture, textures, texture_type);
            &&& material_index is None ==> r is None
            &&& material_index is Some && material_index.unwrap() >= materials.len() ==> r is None
            &&& texture_type > 2 ==> r is None
            &&& r matches Some(t) ==> textures.contains_key(t) && exists|img: usize|
                image_to_texture.contains_key(img) && #[trigger] image_to_texture[img] == t
            &&& material_index is Some && material_index.unwrap() < materials.len() ==> {
                let m = materials[material_index.unwrap() as int];
                &&& texture_type == 0 ==> leads_to(m.base_color_texture, image_to_texture, textures, r)
                &&& texture_type == 1 ==> leads_to(m.normal_texture, image_to_texture, textures, r)
                &&& texture_type == 2 ==> leads_to(
                    m.metallic_roughness_texture,
                    image_to_texture,
                    textures,
                    r,
                )
            }
        }),
{
    let r = chosen_texture(materials, material_index, image_to_texture, textures, texture_type);
    if let Some(t) = r {
        let mi = material_index.unwrap();
        let name = texture_name(materials[mi as int], texture_type).unwrap();
        let img = parsed_usize(name@).unwrap();
        assert(image_to_texture[img] == t);
    }
}

} // verus!
