use vstd::prelude::*;

use crate::lexer::same_text;
use crate::nbt::NbtValue;
use crate::template::{StructureTemplate, TemplateVoxel, VoxelKind, SIZE_LIMIT};
use crate::vectors::Vector3;

verus! {

/// Palette name of the blocks that mark ports.
pub const PALETTE_SIGN_NAME: &'static str = "minecraft:oak_wall_sign";

/// Palette name of empty space.
pub const PALETTE_AIR_NAME: &'static str = "minecraft:air";

/// The text on the front of a sign.
#[derive(Debug)]
pub struct MinecraftStructureSignFrontTextNbt {
    pub messages: Vec<String>,
}

/// The block data of a sign.
#[derive(Debug)]
pub struct MinecraftStructureSignNbt {
    pub front_text: MinecraftStructureSignFrontTextNbt,
    pub id: String,
}

/// A block of a structure: where it is, its palette index, and its data.
#[derive(Debug)]
pub struct MinecraftStructureBlockNbt {
    pub pos: [i32; 3],
    pub state: u32,
    pub nbt: Option<MinecraftStructureSignNbt>,
}

/// An entry of a structure's palette.
#[derive(Debug)]
pub struct MinecraftStructurePaletteNbt {
    pub name: String,
}

/// A structure file: its size, its blocks and its palette.
#[derive(Debug)]
pub struct MinecraftStructureNbt {
    pub size: [u32; 3],
    pub blocks: Vec<MinecraftStructureBlockNbt>,
    pub palette: Vec<MinecraftStructurePaletteNbt>,
}

/// Why a structure file cannot be used.
#[derive(Debug, Clone, Copy, PartialEq, Eq, Structural)]
pub enum StructureError {
    /// A field is missing or has the wrong type.
    Malformed,
    /// The palette has no air entry.
    NoAir,
}

/// Index of the last of the first `n` entries named `key`, or -1.
pub open spec fn last_key(items: Seq<(String, NbtValue)>, key: Seq<char>, n: nat) -> int
    decreases n,
{
    if n == 0 {
        -1
    } else if items[n - 1].0@ == key {
        n - 1
    } else {
        last_key(items, key, (n - 1) as nat)
    }
}

/// The value of the last entry named `key` of a compound value.
pub open spec fn entry_of(v: NbtValue, key: Seq<char>) -> Option<NbtValue> {
    match v {
        NbtValue::Compound(items) => {
            let k = last_key(items@, key, items@.len());
            if k >= 0 {
                Some(items@[k].1)
            } else {
                None
            }
        },
        _ => None,
    }
}

/// Three integers in a list.
pub open spec fn int3_of(v: Option<NbtValue>) -> Option<(i32, i32, i32)> {
    match v {
        Some(NbtValue::List(items)) => if items@.len() == 3 {
            match (items@[0], items@[1], items@[2]) {
                (NbtValue::Int(a), NbtValue::Int(b), NbtValue::Int(c)) => Some((a, b, c)),
                _ => None,
            }
        } else {
            None
        },
        _ => None,
    }
}

/// The text of a value that is a string.
pub open spec fn text_of(v: Option<NbtValue>) -> Option<String> {
    match v {
        Some(NbtValue::String(s)) => Some(s),
        _ => None,
    }
}

/// The state of a block entry, if it is a non-negative integer.
pub open spec fn state_of(b: NbtValue) -> Option<i32> {
    match entry_of(b, "state"@) {
        Some(NbtValue::Int(s)) => if s >= 0 {
            Some(s)
        } else {
            None
        },
        _ => None,
    }
}

/// A document with a size of three non-negative integers, a palette list
/// whose entries have a text name, and a block list whose entries have a
/// position of three integers and a non-negative state.
pub open spec fn structure_ok(v: NbtValue) -> bool {
    &&& int3_of(entry_of(v, "size"@)) matches Some(s) && s.0 >= 0 && s.1 >= 0 && s.2 >= 0
    &&& entry_of(v, "palette"@) matches Some(NbtValue::List(p)) && forall|i: int|
        0 <= i < p@.len() ==> text_of(entry_of(#[trigger] p@[i], "Name"@)) is Some
    &&& entry_of(v, "blocks"@) matches Some(NbtValue::List(b)) && forall|j: int|
        0 <= j < b@.len() ==> int3_of(entry_of(#[trigger] b@[j], "pos"@)) is Some && state_of(
            b@[j],
        ) is Some
}

/// The value of the last entry named `key`.
fn entry<'b>(items: &'b Vec<(String, NbtValue)>, key: &str) -> (r: Option<&'b NbtValue>)
    ensures
        r matches Some(v) ==> last_key(items@, key@, items@.len()) >= 0 && *v == items@[last_key(
            items@,
            key@,
            items@.len(),
        )].1,
        r is None ==> last_key(items@, key@, items@.len()) == -1,
{
    let mut found: Option<&'b NbtValue> = None;
    let mut i: usize = 0;
    while i < items.len()
        invariant
            0 <= i <= items@.len(),
            found matches Some(v) ==> last_key(items@, key@, i as nat) >= 0 && *v == items@[last_key(
                items@,
                key@,
                i as nat,
            )].1,
            found is None ==> last_key(items@, key@, i as nat) == -1,
        decreases items@.len() - i,
    {
        if same_text(items[i].0.as_str(), key) {
            found = Some(&items[i].1);
        }
        i = i + 1;
    }
    found
}

fn compound_entry<'b>(v: &'b NbtValue, key: &str) -> (r: Option<&'b NbtValue>)
    ensures
        r matches Some(x) ==> entry_of(*v, key@) == Some(*x),
        r is None ==> entry_of(*v, key@) is None,
{
    match v {
        NbtValue::Compound(items) => entry(items, key),
        _ => None,
    }
}

fn int_list3(v: &NbtValue) -> (r: Option<[i32; 3]>)
    ensures
        r matches Some(a) ==> int3_of(Some(*v)) == Some((a[0], a[1], a[2])),
        r is None ==> int3_of(Some(*v)) is None,
{
    match v {
        NbtValue::List(items) => {
            if items.len() != 3 {
                return None;
            }
            match (&items[0], &items[1], &items[2]) {
                (NbtValue::Int(a), NbtValue::Int(b), NbtValue::Int(c)) => Some([*a, *b, *c]),
                _ => None,
            }
        },
        _ => None,
    }
}

fn text(v: &NbtValue) -> (r: Option<String>)
    ensures
        r == text_of(Some(*v)),
{
    match v {
        NbtValue::String(s) => Some(s.clone()),
        _ => None,
    }
}

/// Reads the data of a sign: four lines of front text and an id.
fn sign_of(v: &NbtValue) -> (r: Option<MinecraftStructureSignNbt>)
    ensures
        r matches Some(s) ==> s.front_text.messages@.len() == 4,
{
    let front = match compound_entry(v, "front_text") {
        Some(f) => f,
        None => return None,
    };
    let lines = match compound_entry(front, "messages") {
        Some(NbtValue::List(items)) => items,
        _ => return None,
    };
    if lines.len() != 4 {
        return None;
    }
    let mut messages: Vec<String> = Vec::new();
    let mut i: usize = 0;
    while i < 4
        invariant
            lines@.len() == 4,
            0 <= i <= 4,
            messages@.len() == i,
        decreases 4 - i,
    {
        match text(&lines[i]) {
            Some(s) => messages.push(s),
            None => return None,
        }
        i = i + 1;
    }
    let id = match compound_entry(v, "id") {
        Some(x) => match text(x) {
            Some(s) => s,
            None => return None,
        },
        None => return None,
    };
    Some(MinecraftStructureSignNbt { front_text: MinecraftStructureSignFrontTextNbt { messages }, id })
}

/// Index of the first of the first `n` palette entries named `name`, or -1.
pub open spec fn first_named(palette: Seq<MinecraftStructurePaletteNbt>, name: Seq<char>, n: nat) -> int
    decreases n,
{
    if n == 0 {
        -1
    } else if first_named(palette, name, (n - 1) as nat) >= 0 {
        first_named(palette, name, (n - 1) as nat)
    } else if palette[n - 1].name@ == name {
        n - 1
    } else {
        -1
    }
}

/// The palette state of a block names a sign.
pub open spec fn is_sign_state(palette: Seq<MinecraftStructurePaletteNbt>, state: u32) -> bool {
    state < palette.len() && palette[state as int].name@ == PALETTE_SIGN_NAME@
}

/// The template voxels of the first `n` blocks: blocks in the air state
/// are skipped, a sign with data marks a port with the first line of its
/// text, every other block is an obstacle. A sign with data but no text is
/// malformed.
pub open spec fn classify(
    blocks: Seq<MinecraftStructureBlockNbt>,
    palette: Seq<MinecraftStructurePaletteNbt>,
    air: int,
    n: nat,
) -> Result<Seq<TemplateVoxel>, StructureError>
    decreases n,
{
    if n == 0 {
        Ok(Seq::empty())
    } else {
        match classify(blocks, palette, air, (n - 1) as nat) {
            Err(e) => Err(e),
            Ok(vs) => {
                let b = blocks[n - 1];
                let pos = Vector3(b.pos[0], b.pos[1], b.pos[2]);
                if b.state as int == air {
                    Ok(vs)
                } else if is_sign_state(palette, b.state) && b.nbt is Some {
                    let lines = b.nbt->Some_0.front_text.messages@;
                    if lines.len() == 0 {
                        Err(StructureError::Malformed)
                    } else {
                        Ok(vs.push(TemplateVoxel { pos, kind: VoxelKind::PortMarker(lines[0]) }))
                    }
                } else {
                    Ok(vs.push(TemplateVoxel { pos, kind: VoxelKind::Obstacle }))
                }
            },
        }
    }
}

proof fn lemma_first_named_stays(palette: Seq<MinecraftStructurePaletteNbt>, name: Seq<char>, k: nat, n: nat)
    requires
        k <= n,
        first_named(palette, name, k) >= 0,
    ensures
        first_named(palette, name, n) == first_named(palette, name, k),
    decreases n - k,
{
    if k < n {
        lemma_first_named_stays(palette, name, k, (n - 1) as nat);
    }
}

proof fn lemma_classify_stays_err(
    blocks: Seq<MinecraftStructureBlockNbt>,
    palette: Seq<MinecraftStructurePaletteNbt>,
    air: int,
    k: nat,
    n: nat,
)
    requires
        k <= n,
        classify(blocks, palette, air, k) is Err,
    ensures
        classify(blocks, palette, air, n) == classify(blocks, palette, air, k),
    decreases n - k,
{
    if k < n {
        lemma_classify_stays_err(blocks, palette, air, k, (n - 1) as nat);
    }
}

impl MinecraftStructureNbt {
    /// Reads a structure from its decoded NBT document. Block data that is
    /// not sign data is dropped.
    pub fn from_nbt(value: &NbtValue) -> (r: Result<MinecraftStructureNbt, StructureError>)
        ensures
            structure_ok(*value) == (r is Ok),
            r is Err ==> r == Err::<MinecraftStructureNbt, StructureError>(StructureError::Malformed),
            r matches Ok(m) ==> {
                &&& int3_of(entry_of(*value, "size"@)) == Some(
                    (m.size[0] as i32, m.size[1] as i32, m.size[2] as i32),
                )
                &&& entry_of(*value, "palette"@) matches Some(NbtValue::List(p)) && p@.len()
                    == m.palette@.len() && forall|i: int|
                    0 <= i < p@.len() ==> text_of(entry_of(#[trigger] p@[i], "Name"@)) == Some(
                        m.palette@[i].name,
                    )
                &&& entry_of(*value, "blocks"@) matches Some(NbtValue::List(b)) && b@.len()
                    == m.blocks@.len() && forall|j: int|
                    0 <= j < b@.len() ==> int3_of(entry_of(#[trigger] b@[j], "pos"@)) == Some(
                        (m.blocks@[j].pos[0], m.blocks@[j].pos[1], m.blocks@[j].pos[2]),
                    ) && state_of(b@[j]) == Some(m.blocks@[j].state as i32) && (entry_of(
                        b@[j],
                        "nbt"@,
                    ) is None ==> m.blocks@[j].nbt is None)
            },
    {
        let size = match compound_entry(value, "size") {
            Some(s) => match int_list3(s) {
                Some(s) => s,
                None => return Err(StructureError::Malformed),
            },
            None => return Err(StructureError::Malformed),
        };
        if size[0] < 0 || size[1] < 0 || size[2] < 0 {
            return Err(StructureError::Malformed);
        }
        let size = [size[0] as u32, size[1] as u32, size[2] as u32];
        let palette_items = match compound_entry(value, "palette") {
            Some(NbtValue::List(items)) => items,
            _ => return Err(StructureError::Malformed),
        };
        let mut palette: Vec<MinecraftStructurePaletteNbt> = Vec::new();
        let mut i: usize = 0;
        let ghost sz = int3_of(entry_of(*value, "size"@));
        while i < palette_items.len()
            invariant
                0 <= i <= palette_items@.len(),
                sz == int3_of(entry_of(*value, "size"@)),
                sz == Some((size[0] as i32, size[1] as i32, size[2] as i32)),
                size[0] <= i32::MAX && size[1] <= i32::MAX && size[2] <= i32::MAX,
                entry_of(*value, "palette"@) == Some(NbtValue::List(*palette_items)),
                palette@.len() == i,
                forall|k: int|
                    0 <= k < i ==> text_of(entry_of(#[trigger] palette_items@[k], "Name"@)) == Some(
                        palette@[k].name,
                    ),
            decreases palette_items@.len() - i,
        {
            let name = match compound_entry(&palette_items[i], "Name") {
                Some(n) => match text(n) {
                    Some(s) => s,
                    None => return Err(StructureError::Malformed),
                },
                None => return Err(StructureError::Malformed),
            };
            palette.push(MinecraftStructurePaletteNbt { name });
            i = i + 1;
        }
        let block_items = match compound_entry(value, "blocks") {
            Some(NbtValue::List(items)) => items,
            _ => return Err(StructureError::Malformed),
        };
        let mut blocks: Vec<MinecraftStructureBlockNbt> = Vec::new();
        let mut j: usize = 0;
        while j < block_items.len()
            invariant
                0 <= j <= block_items@.len(),
                sz == int3_of(entry_of(*value, "size"@)),
                sz == Some((size[0] as i32, size[1] as i32, size[2] as i32)),
                size[0] <= i32::MAX && size[1] <= i32::MAX && size[2] <= i32::MAX,
                entry_of(*value, "palette"@) == Some(NbtValue::List(*palette_items)),
                palette@.len() == palette_items@.len(),
                forall|k: int|
                    0 <= k < palette_items@.len() ==> text_of(
                        entry_of(#[trigger] palette_items@[k], "Name"@),
                    ) == Some(palette@[k].name),
                entry_of(*value, "blocks"@) == Some(NbtValue::List(*block_items)),
                blocks@.len() == j,
                forall|k: int|
                    0 <= k < j ==> int3_of(entry_of(#[trigger] block_items@[k], "pos"@)) == Some(
                        (blocks@[k].pos[0], blocks@[k].pos[1], blocks@[k].pos[2]),
                    ) && state_of(block_items@[k]) == Some(blocks@[k].state as i32) && (entry_of(
                        block_items@[k],
                        "nbt"@,
                    ) is None ==> blocks@[k].nbt is None),
            decreases block_items@.len() - j,
        {
            let b = &block_items[j];
            let pos = match compound_entry(b, "pos") {
                Some(p) => match int_list3(p) {
                    Some(p) => p,
                    None => return Err(StructureError::Malformed),
                },
                None => return Err(StructureError::Malformed),
            };
            let state = match compound_entry(b, "state") {
                Some(NbtValue::Int(s)) => {
                    if *s < 0 {
                        return Err(StructureError::Malformed);
                    }
                    *s as u32
                },
                _ => return Err(StructureError::Malformed),
            };
            let nbt = match compound_entry(b, "nbt") {
                Some(n) => sign_of(n),
                None => None,
            };
            blocks.push(MinecraftStructureBlockNbt { pos, state, nbt });
            j = j + 1;
        }
        Ok(MinecraftStructureNbt { size, blocks, palette })
    }

    /// Classifies the blocks (see `classify`), using the first palette entry
    /// named air as the air state. Fails when the palette has no air entry.
    pub fn to_template(&self) -> (r: Result<StructureTemplate, StructureError>)
        ensures
            first_named(self.palette@, PALETTE_AIR_NAME@, self.palette@.len() as nat) < 0 ==> r
                == Err::<StructureTemplate, StructureError>(StructureError::NoAir),
            first_named(self.palette@, PALETTE_AIR_NAME@, self.palette@.len() as nat) >= 0 ==> {
                let c = classify(
                    self.blocks@,
                    self.palette@,
                    first_named(self.palette@, PALETTE_AIR_NAME@, self.palette@.len() as nat),
                    self.blocks@.len() as nat,
                );
                &&& r matches Ok(t) ==> t.size == self.size && c == Ok::<
                    Seq<TemplateVoxel>,
                    StructureError,
                >(t.voxels@)
                &&& r matches Err(e) ==> c == Err::<Seq<TemplateVoxel>, StructureError>(e)
            },
    {
        let mut air: Option<usize> = None;
        let mut i: usize = 0;
        while i < self.palette.len()
            invariant
                0 <= i <= self.palette@.len(),
                air matches Some(a) ==> a == first_named(self.palette@, PALETTE_AIR_NAME@, i as nat),
                air is None ==> first_named(self.palette@, PALETTE_AIR_NAME@, i as nat) == -1,
            decreases self.palette@.len() - i,
        {
            if air.is_none() && same_text(self.palette[i].name.as_str(), PALETTE_AIR_NAME) {
                air = Some(i);
            } else {
                proof {
                    if air is Some {
                        lemma_first_named_stays(self.palette@, PALETTE_AIR_NAME@, i as nat, i as nat + 1);
                    }
                }
            }
            i = i + 1;
        }
        let air_state = match air {
            Some(a) => a,
            None => return Err(StructureError::NoAir),
        };
        let ghost a = air_state as int;
        let mut voxels: Vec<TemplateVoxel> = Vec::new();
        let mut j: usize = 0;
        while j < self.blocks.len()
            invariant
                0 <= j <= self.blocks@.len(),
                a == air_state,
                a == first_named(self.palette@, PALETTE_AIR_NAME@, self.palette@.len() as nat),
                classify(self.blocks@, self.palette@, a, j as nat) == Ok::<
                    Seq<TemplateVoxel>,
                    StructureError,
                >(voxels@),
            decreases self.blocks@.len() - j,
        {
            let block = &self.blocks[j];
            let state = block.state as usize;
            if state != air_state {
                let pos = Vector3(block.pos[0], block.pos[1], block.pos[2]);
                let is_sign = state < self.palette.len() && same_text(
                    self.palette[state].name.as_str(),
                    PALETTE_SIGN_NAME,
                );
                let kind = if is_sign {
                    match &block.nbt {
                        Some(sign) => {
                            if sign.front_text.messages.len() == 0 {
                                proof {
                                    lemma_classify_stays_err(
                                        self.blocks@,
                                        self.palette@,
                                        a,
                                        j as nat + 1,
                                        self.blocks@.len() as nat,
                                    );
                                }
                                return Err(StructureError::Malformed);
                            }
                            VoxelKind::PortMarker(sign.front_text.messages[0].clone())
                        },
                        None => VoxelKind::Obstacle,
                    }
                } else {
                    VoxelKind::Obstacle
                };
                voxels.push(TemplateVoxel { pos, kind });
            }
            j = j + 1;
        }
        Ok(StructureTemplate { size: self.size, voxels })
    }
}

} // verus!
