//! Material and creature catalogs resolved from prototype records with
//! single-level template inheritance.

use std::collections::HashMap;
use vstd::prelude::*;
use crate::geometry::Ticks;
use crate::map::{Material, MaterialID, Materials};

verus! {

broadcast use vstd::std_specs::hash::group_hash_axioms;

pub type CreatureID = u16;

/// Why a catalog could not be built.
#[derive(Clone, Debug, PartialEq, Eq)]
pub enum TemplateError {
    /// A prototype without a template lacks a required field.
    MissingField(String),
    /// A prototype names a template that no prototype has.
    UnknownTemplate(String),
    /// Following templates from this prototype never ends.
    CyclicTemplate(String),
}

/// A material record as declared: a template, or every required field.
#[derive(Clone, Debug, PartialEq, Eq)]
pub struct ProtoMaterial {
    pub name: String,
    pub id: MaterialID,
    pub template: Option<String>,
    pub texture: Option<String>,
    pub diggable: Option<bool>,
    pub passable: Option<bool>,
    pub color: Option<[u32; 4]>,
    pub alt: Option<MaterialID>,
}

/// A resolved creature kind. `color` holds the bit patterns of the RGBA components.
#[derive(Clone, Debug, PartialEq, Eq)]
pub struct Creature {
    pub name: String,
    pub id: CreatureID,
    pub texture: Option<String>,
    pub dig_speed: Ticks,
    pub movement_speed: Ticks,
    pub color: [u32; 4],
    pub alt: CreatureID,
}

/// A creature record as declared: a template, or every required field.
#[derive(Clone, Debug, PartialEq, Eq)]
pub struct ProtoCreature {
    pub name: String,
    pub id: CreatureID,
    pub template: Option<String>,
    pub texture: Option<String>,
    pub dig_speed: Option<Ticks>,
    pub movement_speed: Option<Ticks>,
    pub color: Option<[u32; 4]>,
    pub alt: Option<CreatureID>,
}

pub type CreatureMap = HashMap<CreatureID, Creature>;

// ---------------------------------------------------------------- materials

/// Index of the last prototype among the first `k` named `t`.
pub open spec fn find_material(protos: Seq<ProtoMaterial>, t: Seq<char>, k: int) -> Option<int>
    decreases k,
{
    if k <= 0 {
        None
    } else if protos[k - 1].name@ == t {
        Some(k - 1)
    } else {
        find_material(protos, t, k - 1)
    }
}

/// The material of a template-less prototype.
pub open spec fn base_material(p: ProtoMaterial) -> Result<Material, TemplateError> {
    match (p.diggable, p.passable, p.alt, p.color) {
        (Some(diggable), Some(passable), Some(alt), Some(color)) => Ok(
            Material { name: p.name, id: p.id, texture: None, diggable, passable, color, alt },
        ),
        _ => Err(TemplateError::MissingField(p.name)),
    }
}

/// The template's material with the prototype's own fields written over it.
pub open spec fn override_material(m: Material, p: ProtoMaterial) -> Material {
    Material {
        name: p.name,
        id: p.id,
        texture: if p.texture is Some { p.texture } else { m.texture },
        diggable: if let Some(v) = p.diggable { v } else { m.diggable },
        passable: if let Some(v) = p.passable { v } else { m.passable },
        color: if let Some(v) = p.color { v } else { m.color },
        alt: if let Some(v) = p.alt { v } else { m.alt },
    }
}

/// Resolution of prototype `i`, following at most `fuel` template links.
pub open spec fn material_of(protos: Seq<ProtoMaterial>, i: int, fuel: nat) -> Result<Material, TemplateError>
    decreases fuel,
{
    let p = protos[i];
    match p.template {
        None => base_material(p),
        Some(t) => if fuel == 0 {
            Err(TemplateError::CyclicTemplate(p.name))
        } else {
            match find_material(protos, t@, protos.len() as int) {
                None => Err(TemplateError::UnknownTemplate(t)),
                Some(j) => match material_of(protos, j, (fuel - 1) as nat) {
                    Ok(m) => Ok(override_material(m, p)),
                    Err(e) => Err(e),
                },
            }
        },
    }
}

/// The catalog of the first `k` prototypes, each stored under its id in order,
/// or the first failure.
pub open spec fn materials_of(protos: Seq<ProtoMaterial>, k: int) -> Result<Map<MaterialID, Material>, TemplateError>
    decreases k,
{
    if k <= 0 {
        Ok(Map::empty())
    } else {
        match materials_of(protos, k - 1) {
            Err(e) => Err(e),
            Ok(cat) => match material_of(protos, k - 1, protos.len() as nat) {
                Ok(m) => Ok(cat.insert(m.id, m)),
                Err(e) => Err(e),
            },
        }
    }
}

fn find_material_exec(protos: &Vec<ProtoMaterial>, t: &String) -> (r: Option<usize>)
    ensures
        match r {
            Some(j) => j < protos@.len() && find_material(protos@, t@, protos@.len() as int) == Some(j as int),
            None => find_material(protos@, t@, protos@.len() as int) is None,
        },
{
    let mut k = protos.len();
    while k > 0
        invariant
            k <= protos@.len(),
            find_material(protos@, t@, protos@.len() as int) == find_material(protos@, t@, k as int),
        decreases k,
    {
        if protos[k - 1].name == *t {
            return Some(k - 1);
        }
        k -= 1;
    }
    None
}

fn clone_texture(t: &Option<String>) -> (r: Option<String>)
    ensures
        r == *t,
{
    match t {
        Some(s) => Some(s.clone()),
        None => None,
    }
}

fn base_material_exec(p: &ProtoMaterial) -> (r: Result<Material, TemplateError>)
    ensures
        r == base_material(*p),
{
    match (p.diggable, p.passable, p.alt, p.color) {
        (Some(diggable), Some(passable), Some(alt), Some(color)) => Ok(
            Material { name: p.name.clone(), id: p.id, texture: None, diggable, passable, color, alt },
        ),
        _ => Err(TemplateError::MissingField(p.name.clone())),
    }
}

fn override_material_exec(m: Material, p: &ProtoMaterial) -> (r: Material)
    ensures
        r == override_material(m, *p),
{
    Material {
        name: p.name.clone(),
        id: p.id,
        texture: if p.texture.is_some() { clone_texture(&p.texture) } else { m.texture },
        diggable: match p.diggable { Some(v) => v, None => m.diggable },
        passable: match p.passable { Some(v) => v, None => m.passable },
        color: match p.color { Some(v) => v, None => m.color },
        alt: match p.alt { Some(v) => v, None => m.alt },
    }
}

fn resolve_material(protos: &Vec<ProtoMaterial>, i: usize, fuel: usize) -> (r: Result<Material, TemplateError>)
    requires
        i < protos@.len(),
    ensures
        r == material_of(protos@, i as int, fuel as nat),
    decreases fuel,
{
    let p = &protos[i];
    match &p.template {
        None => base_material_exec(p),
        Some(t) => {
            if fuel == 0 {
                return Err(TemplateError::CyclicTemplate(p.name.clone()));
            }
            match find_material_exec(protos, t) {
                None => Err(TemplateError::UnknownTemplate(t.clone())),
                Some(j) => match resolve_material(protos, j, fuel - 1) {
                    Ok(m) => Ok(override_material_exec(m, p)),
                    Err(e) => Err(e),
                },
            }
        },
    }
}

/// Build the material catalog: every prototype resolved through its templates
/// and stored under its id, in order.
pub fn init_materials(protos: &Vec<ProtoMaterial>) -> (r: Result<Materials, TemplateError>)
    ensures
        match materials_of(protos@, protos@.len() as int) {
            Ok(cat) => r matches Ok(m) && m@ == cat,
            Err(e) => r == Err::<Materials, TemplateError>(e),
        },
{
    let mut cat: Materials = HashMap::new();
    let mut k: usize = 0;
    while k < protos.len()
        invariant
            k <= protos@.len(),
            materials_of(protos@, k as int) == Ok::<Map<MaterialID, Material>, TemplateError>(cat@),
        decreases protos@.len() - k,
    {
        match resolve_material(protos, k, protos.len()) {
            Ok(m) => {
                cat.insert(m.id, m);
            },
            Err(e) => {
                proof { lemma_materials_err_sticks(protos@, k as int + 1, protos@.len() as int); }
                return Err(e);
            },
        }
        k += 1;
    }
    Ok(cat)
}

proof fn lemma_materials_err_sticks(protos: Seq<ProtoMaterial>, k: int, n: int)
    requires
        0 <= k <= n,
        materials_of(protos, k) is Err,
    ensures
        materials_of(protos, n) == materials_of(protos, k),
    decreases n - k,
{
    if k < n {
        lemma_materials_err_sticks(protos, k + 1, n);
    }
}

// ---------------------------------------------------------------- creatures

/// Index of the last prototype among the first `k` named `t`.
pub open spec fn find_creature(protos: Seq<ProtoCreature>, t: Seq<char>, k: int) -> Option<int>
    decreases k,
{
    if k <= 0 {
        None
    } else if protos[k - 1].name@ == t {
        Some(k - 1)
    } else {
        find_creature(protos, t, k - 1)
    }
}

/// The creature of a template-less prototype.
pub open spec fn base_creature(p: ProtoCreature) -> Result<Creature, TemplateError> {
    match (p.dig_speed, p.movement_speed, p.alt, p.color) {
        (Some(dig_speed), Some(movement_speed), Some(alt), Some(color)) => Ok(
            Creature { name: p.name, id: p.id, texture: None, dig_speed, movement_speed, color, alt },
        ),
        _ => Err(TemplateError::MissingField(p.name)),
    }
}

/// The template's creature with the prototype's own fields written over it.
pub open spec fn override_creature(m: Creature, p: ProtoCreature) -> Creature {
    Creature {
        name: p.name,
        id: p.id,
        texture: if p.texture is Some { p.texture } else { m.texture },
        dig_speed: if let Some(v) = p.dig_speed { v } else { m.dig_speed },
        movement_speed: if let Some(v) = p.movement_speed { v } else { m.movement_speed },
        color: if let Some(v) = p.color { v } else { m.color },
        alt: if let Some(v) = p.alt { v } else { m.alt },
    }
}

/// Resolution of prototype `i`, following at most `fuel` template links.
pub open spec fn creature_of(protos: Seq<ProtoCreature>, i: int, fuel: nat) -> Result<Creature, TemplateError>
    decreases fuel,
{
    let p = protos[i];
    match p.template {
        None => base_creature(p),
        Some(t) => if fuel == 0 {
            Err(TemplateError::CyclicTemplate(p.name))
        } else {
            match find_creature(protos, t@, protos.len() as int) {
                None => Err(TemplateError::UnknownTemplate(t)),
                Some(j) => match creature_of(protos, j, (fuel - 1) as nat) {
                    Ok(m) => Ok(override_creature(m, p)),
                    Err(e) => Err(e),
                },
            }
        },
    }
}

/// The catalog of the first `k` prototypes, each stored under its id in order,
/// or the first failure.
pub open spec fn creatures_of(protos: Seq<ProtoCreature>, k: int) -> Result<Map<CreatureID, Creature>, TemplateError>
    decreases k,
{
    if k <= 0 {
        Ok(Map::empty())
    } else {
        match creatures_of(protos, k - 1) {
            Err(e) => Err(e),
            Ok(cat) => match creature_of(protos, k - 1, protos.len() as nat) {
                Ok(m) => Ok(cat.insert(m.id, m)),
                Err(e) => Err(e),
            },
        }
    }
}

fn find_creature_exec(protos: &Vec<ProtoCreature>, t: &String) -> (r: Option<usize>)
    ensures
        match r {
            Some(j) => j < protos@.len() && find_creature(protos@, t@, protos@.len() as int) == Some(j as int),
            None => find_creature(protos@, t@, protos@.len() as int) is None,
        },
{
    let mut k = protos.len();
    while k > 0
        invariant
            k <= protos@.len(),
            find_creature(protos@, t@, protos@.len() as int) == find_creature(protos@, t@, k as int),
        decreases k,
    {
        if protos[k - 1].name == *t {
            return Some(k - 1);
        }
        k -= 1;
    }
    None
}

fn base_creature_exec(p: &ProtoCreature) -> (r: Result<Creature, TemplateError>)
    ensures
        r == base_creature(*p),
{
    match (p.dig_speed, p.movement_speed, p.alt, p.color) {
        (Some(dig_speed), Some(movement_speed), Some(alt), Some(color)) => Ok(
            Creature { name: p.name.clone(), id: p.id, texture: None, dig_speed, movement_speed, color, alt },
        ),
        _ => Err(TemplateError::MissingField(p.name.clone())),
    }
}

fn override_creature_exec(m: Creature, p: &ProtoCreature) -> (r: Creature)
    ensures
        r == override_creature(m, *p),
{
    Creature {
        name: p.name.clone(),
        id: p.id,
        texture: if p.texture.is_some() { clone_texture(&p.texture) } else { m.texture },
        dig_speed: match p.dig_speed { Some(v) => v, None => m.dig_speed },
        movement_speed: match p.movement_speed { Some(v) => v, None => m.movement_speed },
        color: match p.color { Some(v) => v, None => m.color },
        alt: match p.alt { Some(v) => v, None => m.alt },
    }
}

fn resolve_creature(protos: &Vec<ProtoCreature>, i: usize, fuel: usize) -> (r: Result<Creature, TemplateError>)
    requires
        i < protos@.len(),
    ensures
        r == creature_of(protos@, i as int, fuel as nat),
    decreases fuel,
{
    let p = &protos[i];
    match &p.template {
        None => base_creature_exec(p),
        Some(t) => {
            if fuel == 0 {
                return Err(TemplateError::CyclicTemplate(p.name.clone()));
            }
            match find_creature_exec(protos, t) {
                None => Err(TemplateError::UnknownTemplate(t.clone())),
                Some(j) => match resolve_creature(protos, j, fuel - 1) {
                    Ok(m) => Ok(override_creature_exec(m, p)),
                    Err(e) => Err(e),
                },
            }
        },
    }
}

/// Build the creature catalog: every prototype resolved through its templates
/// and stored under its id, in order.
pub fn init_creatures(protos: &Vec<ProtoCreature>) -> (r: Result<CreatureMap, TemplateError>)
    ensures
        match creatures_of(protos@, protos@.len() as int) {
            Ok(cat) => r matches Ok(m) && m@ == cat,
            Err(e) => r == Err::<CreatureMap, TemplateError>(e),
        },
{
    let mut cat: CreatureMap = HashMap::new();
    let mut k: usize = 0;
    while k < protos.len()
        invariant
            k <= protos@.len(),
            creatures_of(protos@, k as int) == Ok::<Map<CreatureID, Creature>, TemplateError>(cat@),
        decreases protos@.len() - k,
    {
        match resolve_creature(protos, k, protos.len()) {
            Ok(m) => {
                cat.insert(m.id, m);
            },
            Err(e) => {
                proof { lemma_creatures_err_sticks(protos@, k as int + 1, protos@.len() as int); }
                return Err(e);
            },
        }
        k += 1;
    }
    Ok(cat)
}

proof fn lemma_creatures_err_sticks(protos: Seq<ProtoCreature>, k: int, n: int)
    requires
        0 <= k <= n,
        creatures_of(protos, k) is Err,
    ensures
        creatures_of(protos, n) == creatures_of(protos, k),
    decreases n - k,
{
    if k < n {
        lemma_creatures_err_sticks(protos, k + 1, n);
    }
}

// ---------------------------------------------------------------- lookups

/// The bit patterns of opaque white, the color of an unknown creature kind.
pub const WHITE_BITS: [u32; 4] = [0x3f80_0000, 0x3f80_0000, 0x3f80_0000, 0x3f80_0000];

pub open spec fn dig_speed_of(types: Map<CreatureID, Creature>, id: CreatureID) -> Ticks {
    if types.contains_key(id) { types[id].dig_speed } else { 0 }
}

pub open spec fn movement_speed_of(types: Map<CreatureID, Creature>, id: CreatureID) -> Ticks {
    if types.contains_key(id) { types[id].movement_speed } else { 0 }
}

/// Ticks a creature of this kind takes to dig one tile (0 for an unknown kind).
pub fn dig_speed(creature_id: &CreatureID, creature_types: &CreatureMap) -> (r: Ticks)
    ensures
        r == dig_speed_of(creature_types@, *creature_id),
{
    match creature_types.get(creature_id) {
        Some(creature) => creature.dig_speed,
        None => 0,
    }
}

/// Ticks a creature of this kind takes for one step (0 for an unknown kind).
pub fn movement_speed(creature_id: &CreatureID, creature_types: &CreatureMap) -> (r: Ticks)
    ensures
        r == movement_speed_of(creature_types@, *creature_id),
{
    match creature_types.get(creature_id) {
        Some(creature) => creature.movement_speed,
        None => 0,
    }
}

/// The display color of a creature kind, as bit patterns (white for an unknown kind).
pub fn get_color(creature_id: &CreatureID, creature_types: &CreatureMap) -> (r: [u32; 4])
    ensures
        r == (if creature_types@.contains_key(*creature_id) {
            creature_types@[*creature_id].color
        } else {
            WHITE_BITS
        }),
{
    match creature_types.get(creature_id) {
        Some(creature) => creature.color,
        None => WHITE_BITS,
    }
}

} // verus!
