use vstd::prelude::*;

use crate::descriptor::DescriptorKind;
use crate::table::{unique_names, NamedTable};
use crate::text::{contains_pattern, has_pattern, string_from_chars, to_chars};
use crate::uniforms::{data_type_from_name, data_type_named, DataType};

verus! {

/// The shader stages that see a push-constant range or a descriptor binding.
#[allow(non_camel_case_types)]
#[derive(PartialEq, Eq, Structural, Debug, Clone, Copy)]
pub enum Stages {
    VERTEX,
    FRAGMENT,
    VERTEX_FRAGMENT,
}

/// A push-constant range: the stages that see it, its offset and its size in bytes.
#[derive(PartialEq, Eq, Structural, Debug, Clone, Copy)]
pub struct PushRange {
    pub stages: Stages,
    pub offset: u32,
    pub size: u32,
}

/// The single binding of a uniform block's descriptor set layout: its kind and its stages.
#[derive(PartialEq, Eq, Structural, Debug, Clone, Copy)]
pub struct LayoutField {
    pub kind: DescriptorKind,
    pub stages: Stages,
}

/// The size in bytes of a value of the type.
pub open spec fn size_of_type(t: DataType) -> u8 {
    match t {
        DataType::INT | DataType::UINT | DataType::FLOAT | DataType::BOOL => 4,
        DataType::BVEC2 | DataType::IVEC2 | DataType::UVEC2 | DataType::VEC2 => 8,
        DataType::BVEC3 | DataType::IVEC3 | DataType::UVEC3 | DataType::VEC3 => 12,
        DataType::BVEC4 | DataType::IVEC4 | DataType::UVEC4 | DataType::VEC4 => 16,
        DataType::MAT2 => 16,
        DataType::MAT3 => 36,
        DataType::MAT4 => 64,
    }
}

/// The size in bytes of a value of the named type; a name that is no value type (a sampler)
/// takes no room.
pub open spec fn type_size(name: Seq<char>) -> int {
    match data_type_named(name) {
        Some(t) => size_of_type(t) as int,
        None => 0,
    }
}

/// The size in bytes of a block: the sum of the sizes of its fields' types.
pub open spec fn block_size(pairs: Seq<(String, String)>) -> int
    decreases pairs.len(),
{
    if pairs.len() == 0 {
        0
    } else {
        block_size(pairs.drop_last()) + type_size(pairs.last().0@)
    }
}

/// The sum of the sizes of the blocks.
pub open spec fn blocks_total(blocks: Seq<(String, Vec<(String, String)>)>) -> int
    decreases blocks.len(),
{
    if blocks.len() == 0 {
        0
    } else {
        blocks_total(blocks.drop_last()) + block_size(blocks.last().1@)
    }
}

/// A block's (type name, field name) pairs as character sequences.
pub open spec fn pairs_view(pairs: Seq<(String, String)>) -> Seq<(Seq<char>, Seq<char>)> {
    pairs.map_values(|p: (String, String)| (p.0@, p.1@))
}

/// The word that marks a sampler type.
pub open spec fn sampler_word() -> Seq<char> {
    seq!['s', 'a', 'm', 'p', 'l', 'e', 'r']
}

/// Some field of the block has a type whose name holds "sampler".
pub open spec fn has_sampler(pairs: Seq<(String, String)>) -> bool {
    exists|i: int| 0 <= i < pairs.len() && has_pattern(#[trigger] pairs[i].0@, sampler_word())
}

/// The key under which the size of a push-constant block is kept.
pub open spec fn push_key(name: Seq<char>) -> Seq<char> {
    seq!['P', 'U', 'S', 'H', '-'] + name
}

/// The key under which the size of a descriptor block is kept.
pub open spec fn descriptor_key(name: Seq<char>) -> Seq<char> {
    seq!['D', 'E', 'S', 'C', 'R', 'I', 'P', 'T', 'O', 'R', '-'] + name
}

/// The state of the push-constant pass: the blocks taken so far (by name, their pairs), the
/// ranges, the sizes table, and the running offset.
pub open spec fn push_step(
    s: (
        Map<Seq<char>, Seq<(Seq<char>, Seq<char>)>>,
        Map<Seq<char>, PushRange>,
        Map<Seq<char>, (u8, u16)>,
        int,
    ),
    block: (String, Vec<(String, String)>),
    fragment: bool,
) -> (Map<Seq<char>, Seq<(Seq<char>, Seq<char>)>>, Map<Seq<char>, PushRange>, Map<Seq<char>, (u8, u16)>, int) {
    let n = block.0@;
    let pairs = block.1@;
    let sz = block_size(pairs);
    if !fragment {
        (
            s.0.insert(n, pairs_view(pairs)),
            s.1.insert(n, PushRange { stages: Stages::VERTEX, offset: 0, size: sz as u32 }),
            s.2.insert(push_key(n), (sz as u8, s.3 as u16)),
            s.3 + sz,
        )
    } else if s.0.contains_key(n) && s.0[n] == pairs_view(pairs) {
        (
            s.0,
            s.1.insert(
                n,
                PushRange { stages: Stages::VERTEX_FRAGMENT, offset: s.1[n].offset, size: s.1[n].size },
            ),
            s.2,
            s.3,
        )
    } else {
        (
            s.0.insert(n, pairs_view(pairs)),
            s.1.insert(n, PushRange { stages: Stages::FRAGMENT, offset: 0, size: sz as u32 }),
            if pairs.len() > 0 {
                s.2.insert(push_key(n), (sz as u8, s.3 as u16))
            } else {
                s.2
            },
            s.3,
        )
    }
}

/// The push-constant pass over the blocks of one stage, from state `s`.
pub open spec fn push_pass(
    s: (
        Map<Seq<char>, Seq<(Seq<char>, Seq<char>)>>,
        Map<Seq<char>, PushRange>,
        Map<Seq<char>, (u8, u16)>,
        int,
    ),
    blocks: Seq<(String, Vec<(String, String)>)>,
    fragment: bool,
) -> (Map<Seq<char>, Seq<(Seq<char>, Seq<char>)>>, Map<Seq<char>, PushRange>, Map<Seq<char>, (u8, u16)>, int)
    decreases blocks.len(),
{
    if blocks.len() == 0 {
        s
    } else {
        push_step(push_pass(s, blocks.drop_last(), fragment), blocks.last(), fragment)
    }
}

/// The sizes table with the size of a non-empty block set under `key`, at offset 0.
pub open spec fn with_block_size(
    sizes: Map<Seq<char>, (u8, u16)>,
    key: Seq<char>,
    pairs: Seq<(String, String)>,
) -> Map<Seq<char>, (u8, u16)> {
    if pairs.len() > 0 {
        sizes.insert(key, (block_size(pairs) as u8, 0u16))
    } else {
        sizes
    }
}

/// One step of the descriptor pass: the blocks taken so far, the layouts, the sizes table.
/// A block of the vertex stage gets a uniform-buffer layout unless it holds a sampler; a block
/// of the fragment stage that the vertex stage declared alike gets one for both stages (a
/// combined image sampler where it holds a sampler); any other gets the vertex stage's kind.
pub open spec fn descriptor_step(
    s: (Map<Seq<char>, Seq<(Seq<char>, Seq<char>)>>, Map<Seq<char>, LayoutField>, Map<Seq<char>, (u8, u16)>),
    block: (String, Vec<(String, String)>),
    fragment: bool,
) -> (Map<Seq<char>, Seq<(Seq<char>, Seq<char>)>>, Map<Seq<char>, LayoutField>, Map<Seq<char>, (u8, u16)>) {
    let n = block.0@;
    let pairs = block.1@;
    let sizes = with_block_size(s.2, descriptor_key(n), pairs);
    if fragment && s.0.contains_key(n) && s.0[n] == pairs_view(pairs) {
        let kind = if has_sampler(pairs) {
            DescriptorKind::COMBINED_IMAGE_SAMPLER
        } else {
            DescriptorKind::UNIFORM_BUFFER
        };
        (s.0, s.1.insert(n, LayoutField { kind, stages: Stages::VERTEX_FRAGMENT }), sizes)
    } else {
        (
            s.0.insert(n, pairs_view(pairs)),
            if has_sampler(pairs) {
                s.1
            } else {
                s.1.insert(
                    n,
                    LayoutField { kind: DescriptorKind::UNIFORM_BUFFER, stages: Stages::VERTEX },
                )
            },
            sizes,
        )
    }
}

/// The descriptor pass over the blocks of one stage, from state `s`.
pub open spec fn descriptor_pass(
    s: (Map<Seq<char>, Seq<(Seq<char>, Seq<char>)>>, Map<Seq<char>, LayoutField>, Map<Seq<char>, (u8, u16)>),
    blocks: Seq<(String, Vec<(String, String)>)>,
    fragment: bool,
) -> (Map<Seq<char>, Seq<(Seq<char>, Seq<char>)>>, Map<Seq<char>, LayoutField>, Map<Seq<char>, (u8, u16)>)
    decreases blocks.len(),
{
    if blocks.len() == 0 {
        s
    } else {
        descriptor_step(descriptor_pass(s, blocks.drop_last(), fragment), blocks.last(), fragment)
    }
}

/// The push-constant ranges, the descriptor layouts and the sizes table of a shader, from the
/// blocks of its stages: vertex push constants, vertex descriptors, fragment push constants,
/// fragment descriptors, in that order.
pub open spec fn shader_layout(
    vert_push: Seq<(String, Vec<(String, String)>)>,
    vert_descriptors: Seq<(String, Vec<(String, String)>)>,
    frag_push: Seq<(String, Vec<(String, String)>)>,
    frag_descriptors: Seq<(String, Vec<(String, String)>)>,
) -> (Map<Seq<char>, PushRange>, Map<Seq<char>, LayoutField>, Map<Seq<char>, (u8, u16)>) {
    let p1 = push_pass((Map::empty(), Map::empty(), Map::empty(), 0), vert_push, false);
    let d1 = descriptor_pass((Map::empty(), Map::empty(), p1.2), vert_descriptors, false);
    let p2 = push_pass((p1.0, p1.1, d1.2, p1.3), frag_push, true);
    let d2 = descriptor_pass((d1.0, d1.1, p2.2), frag_descriptors, true);
    (p2.1, d2.1, d2.2)
}

/// Every block of the list fits the sizes table: its size is at most 255 bytes.
pub open spec fn blocks_fit(blocks: Seq<(String, Vec<(String, String)>)>) -> bool {
    forall|i: int| 0 <= i < blocks.len() ==> block_size(#[trigger] blocks[i].1@) <= 255
}

proof fn lemma_block_size_prefix(pairs: Seq<(String, String)>, i: int)
    requires
        0 <= i <= pairs.len(),
    ensures
        0 <= block_size(pairs.take(i)) <= block_size(pairs),
    decreases pairs.len(),
{
    if i == pairs.len() {
        assert(pairs.take(i) =~= pairs);
        lemma_block_size_nonneg(pairs);
    } else {
        lemma_block_size_prefix(pairs.drop_last(), i);
        assert(pairs.drop_last().take(i) =~= pairs.take(i));
    }
}

proof fn lemma_block_size_nonneg(pairs: Seq<(String, String)>)
    ensures
        block_size(pairs) >= 0,
    decreases pairs.len(),
{
    if pairs.len() > 0 {
        lemma_block_size_nonneg(pairs.drop_last());
    }
}

proof fn lemma_blocks_total_prefix(blocks: Seq<(String, Vec<(String, String)>)>, i: int)
    requires
        0 <= i <= blocks.len(),
    ensures
        0 <= blocks_total(blocks.take(i)) <= blocks_total(blocks),
    decreases blocks.len(),
{
    if i == blocks.len() {
        assert(blocks.take(i) =~= blocks);
        lemma_blocks_total_nonneg(blocks);
    } else {
        lemma_blocks_total_prefix(blocks.drop_last(), i);
        assert(blocks.drop_last().take(i) =~= blocks.take(i));
        lemma_block_size_nonneg(blocks.last().1@);
    }
}

proof fn lemma_blocks_total_nonneg(blocks: Seq<(String, Vec<(String, String)>)>)
    ensures
        blocks_total(blocks) >= 0,
    decreases blocks.len(),
{
    if blocks.len() > 0 {
        lemma_blocks_total_nonneg(blocks.drop_last());
        lemma_block_size_nonneg(blocks.last().1@);
    }
}

/// The size in bytes of a value of the type.
fn size_of(t: DataType) -> (r: u8)
    ensures
        r == size_of_type(t),
{
    match t {
        DataType::INT | DataType::UINT | DataType::FLOAT | DataType::BOOL => 4,
        DataType::BVEC2 | DataType::IVEC2 | DataType::UVEC2 | DataType::VEC2 => 8,
        DataType::BVEC3 | DataType::IVEC3 | DataType::UVEC3 | DataType::VEC3 => 12,
        DataType::BVEC4 | DataType::IVEC4 | DataType::UVEC4 | DataType::VEC4 => 16,
        DataType::MAT2 => 16,
        DataType::MAT3 => 36,
        DataType::MAT4 => 64,
    }
}

/// The size in bytes of a value of the named type, none for a name that is no value type.
pub fn convert_to_size(data_type: &str) -> (r: u8)
    ensures
        r == type_size(data_type@),
{
    let chars = to_chars(data_type);
    match data_type_from_name(&chars) {
        Some(t) => size_of(t),
        None => 0,
    }
}

/// The size in bytes of a block.
fn pairs_size(pairs: &Vec<(String, String)>) -> (r: u8)
    requires
        block_size(pairs@) <= 255,
    ensures
        r == block_size(pairs@),
{
    let mut total: u8 = 0;
    let mut i: usize = 0;
    while i < pairs.len()
        invariant
            i <= pairs@.len(),
            block_size(pairs@) <= 255,
            total == block_size(pairs@.take(i as int)),
        decreases pairs@.len() - i,
    {
        let sz = convert_to_size(pairs[i].0.as_str());
        proof {
            assert(pairs@.take(i + 1).drop_last() =~= pairs@.take(i as int));
            lemma_block_size_prefix(pairs@, i + 1);
        }
        total = total + sz;
        i = i + 1;
    }
    assert(pairs@.take(pairs@.len() as int) =~= pairs@);
    total
}

/// Tells whether the two blocks declare the same pairs.
fn same_pairs(a: &Vec<(String, String)>, b: &Vec<(String, String)>) -> (r: bool)
    ensures
        r == (pairs_view(a@) == pairs_view(b@)),
{
    if a.len() != b.len() {
        assert(pairs_view(a@).len() != pairs_view(b@).len());
        return false;
    }
    let mut i: usize = 0;
    while i < a.len()
        invariant
            i <= a@.len(),
            a@.len() == b@.len(),
            forall|k: int| 0 <= k < i ==> pairs_view(a@)[k] == pairs_view(b@)[k],
        decreases a@.len() - i,
    {
        if a[i].0 != b[i].0 || a[i].1 != b[i].1 {
            assert(pairs_view(a@)[i as int] != pairs_view(b@)[i as int]);
            return false;
        }
        i = i + 1;
    }
    assert(pairs_view(a@) =~= pairs_view(b@));
    true
}

/// Tells whether some field of the block has a type whose name holds "sampler".
fn pairs_have_sampler(pairs: &Vec<(String, String)>) -> (r: bool)
    ensures
        r == has_sampler(pairs@),
{
    let mut word: Vec<char> = Vec::new();
    word.push('s');
    word.push('a');
    word.push('m');
    word.push('p');
    word.push('l');
    word.push('e');
    word.push('r');
    assert(word@ =~= sampler_word());
    let mut i: usize = 0;
    while i < pairs.len()
        invariant
            i <= pairs@.len(),
            word@ == sampler_word(),
            forall|k: int| 0 <= k < i ==> !has_pattern(#[trigger] pairs@[k].0@, sampler_word()),
        decreases pairs@.len() - i,
    {
        let chars = to_chars(pairs[i].0.as_str());
        if contains_pattern(&chars, &word) {
            return true;
        }
        i = i + 1;
    }
    false
}

/// The name with the given prefix before it.
fn prefixed(prefix: Vec<char>, name: &String) -> (s: String)
    ensures
        s@ == prefix@ + name@,
{
    let chars = to_chars(name.as_str());
    let mut all = prefix;
    let ghost start = all@;
    let mut i: usize = 0;
    while i < chars.len()
        invariant
            i <= chars@.len(),
            chars@ == name@,
            all@ == start + chars@.take(i as int),
        decreases chars@.len() - i,
    {
        all.push(chars[i]);
        i = i + 1;
        assert(all@ =~= start + chars@.take(i as int));
    }
    assert(chars@.take(chars@.len() as int) =~= chars@);
    string_from_chars(&all)
}

/// The key of a push-constant block in the sizes table.
fn push_key_of(name: &String) -> (s: String)
    ensures
        s@ == push_key(name@),
{
    let mut p: Vec<char> = Vec::new();
    p.push('P');
    p.push('U');
    p.push('S');
    p.push('H');
    p.push('-');
    assert(p@ =~= seq!['P', 'U', 'S', 'H', '-']);
    prefixed(p, name)
}

/// The key of a descriptor block in the sizes table.
fn descriptor_key_of(name: &String) -> (s: String)
    ensures
        s@ == descriptor_key(name@),
{
    let mut p: Vec<char> = Vec::new();
    p.push('D');
    p.push('E');
    p.push('S');
    p.push('C');
    p.push('R');
    p.push('I');
    p.push('P');
    p.push('T');
    p.push('O');
    p.push('R');
    p.push('-');
    assert(p@ =~= seq!['D', 'E', 'S', 'C', 'R', 'I', 'P', 'T', 'O', 'R', '-']);
    prefixed(p, name)
}

/// The pairs of the last block of the list named `name`, if any.
pub open spec fn named(blocks: Seq<(String, Vec<(String, String)>)>, name: Seq<char>) -> Option<
    Seq<(String, String)>,
>
    decreases blocks.len(),
{
    if blocks.len() == 0 {
        None
    } else if blocks.last().0@ == name {
        Some(blocks.last().1@)
    } else {
        named(blocks.drop_last(), name)
    }
}

/// The push-constant range of the block `name`: at offset 0, as large as the fragment stage's
/// block of that name where there is one, else the vertex stage's; seen by both stages where
/// both declare it alike, else by the one stage that declares it last.
pub open spec fn push_range_of(
    vert_push: Seq<(String, Vec<(String, String)>)>,
    frag_push: Seq<(String, Vec<(String, String)>)>,
    name: Seq<char>,
) -> Option<PushRange> {
    match named(frag_push, name) {
        Some(b) => Some(
            PushRange {
                stages: if named(vert_push, name) matches Some(a) && pairs_view(a) == pairs_view(b) {
                    Stages::VERTEX_FRAGMENT
                } else {
                    Stages::FRAGMENT
                },
                offset: 0,
                size: block_size(b) as u32,
            },
        ),
        None => match named(vert_push, name) {
            Some(a) => Some(PushRange { stages: Stages::VERTEX, offset: 0, size: block_size(a) as u32 }),
            None => None,
        },
    }
}

proof fn lemma_named_index(blocks: Seq<(String, Vec<(String, String)>)>, name: Seq<char>) -> (i: int)
    requires
        named(blocks, name) is Some,
    ensures
        0 <= i < blocks.len(),
        blocks[i].0@ == name,
    decreases blocks.len(),
{
    if blocks.last().0@ == name {
        blocks.len() - 1
    } else {
        lemma_named_index(blocks.drop_last(), name)
    }
}

proof fn lemma_block_size_view(a: Seq<(String, String)>, b: Seq<(String, String)>)
    requires
        pairs_view(a) == pairs_view(b),
    ensures
        block_size(a) == block_size(b),
    decreases a.len(),
{
    assert(pairs_view(a).len() == a.len() && pairs_view(b).len() == b.len());
    if a.len() > 0 {
        assert(pairs_view(a.drop_last()) =~= pairs_view(b.drop_last())) by {
            assert forall|i: int| 0 <= i < a.len() - 1 implies pairs_view(a.drop_last())[i]
                == pairs_view(b.drop_last())[i] by {
                assert(pairs_view(a)[i] == pairs_view(b)[i]);
            }
        }
        assert(pairs_view(a)[a.len() - 1] == pairs_view(b)[b.len() - 1]);
        lemma_block_size_view(a.drop_last(), b.drop_last());
    }
}

proof fn lemma_vertex_push_pass(
    s: (Map<Seq<char>, Seq<(Seq<char>, Seq<char>)>>, Map<Seq<char>, PushRange>, Map<Seq<char>, (u8, u16)>, int),
    blocks: Seq<(String, Vec<(String, String)>)>,
    name: Seq<char>,
)
    requires
        s.0 == Map::<Seq<char>, Seq<(Seq<char>, Seq<char>)>>::empty(),
        s.1 == Map::<Seq<char>, PushRange>::empty(),
    ensures
        push_pass(s, blocks, false).0.contains_key(name) == named(blocks, name) is Some,
        push_pass(s, blocks, false).1.contains_key(name) == named(blocks, name) is Some,
        named(blocks, name) matches Some(a) ==> push_pass(s, blocks, false).0[name] == pairs_view(a)
            && push_pass(s, blocks, false).1[name] == (PushRange {
            stages: Stages::VERTEX,
            offset: 0,
            size: block_size(a) as u32,
        }),
    decreases blocks.len(),
{
    if blocks.len() > 0 {
        lemma_vertex_push_pass(s, blocks.drop_last(), name);
    }
}

proof fn lemma_fragment_push_pass(
    t: (Map<Seq<char>, Seq<(Seq<char>, Seq<char>)>>, Map<Seq<char>, PushRange>, Map<Seq<char>, (u8, u16)>, int),
    blocks: Seq<(String, Vec<(String, String)>)>,
    name: Seq<char>,
)
    requires
        unique_names(blocks),
    ensures
        named(blocks, name) is None ==> {
            &&& push_pass(t, blocks, true).0.contains_key(name) == t.0.contains_key(name)
            &&& push_pass(t, blocks, true).1.contains_key(name) == t.1.contains_key(name)
            &&& push_pass(t, blocks, true).0[name] == t.0[name]
            &&& push_pass(t, blocks, true).1[name] == t.1[name]
        },
        named(blocks, name) matches Some(b) ==> {
            &&& push_pass(t, blocks, true).1.contains_key(name)
            &&& push_pass(t, blocks, true).1[name] == if t.0.contains_key(name) && t.0[name]
                == pairs_view(b) {
                PushRange { stages: Stages::VERTEX_FRAGMENT, offset: t.1[name].offset, size: t.1[name].size }
            } else {
                PushRange { stages: Stages::FRAGMENT, offset: 0, size: block_size(b) as u32 }
            }
        },
    decreases blocks.len(),
{
    if blocks.len() > 0 {
        lemma_unique_drop_last_blocks(blocks);
        lemma_fragment_push_pass(t, blocks.drop_last(), name);
    }
}

/// The push-constant ranges of a shader are those of `push_range_of`: every block that a stage
/// declares has one, at offset 0, as large as the block, seen by the stages that declare it
/// alike. Each stage names each block once.
pub proof fn lemma_push_ranges(
    vert_push: Seq<(String, Vec<(String, String)>)>,
    vert_descriptors: Seq<(String, Vec<(String, String)>)>,
    frag_push: Seq<(String, Vec<(String, String)>)>,
    frag_descriptors: Seq<(String, Vec<(String, String)>)>,
    name: Seq<char>,
)
    requires
        unique_names(vert_push),
        unique_names(frag_push),
    ensures
        shader_layout(vert_push, vert_descriptors, frag_push, frag_descriptors).0.contains_key(name)
            == push_range_of(vert_push, frag_push, name) is Some,
        push_range_of(vert_push, frag_push, name) matches Some(r) ==> shader_layout(
            vert_push,
            vert_descriptors,
            frag_push,
            frag_descriptors,
        ).0[name] == r,
{
    let p0: (
        Map<Seq<char>, Seq<(Seq<char>, Seq<char>)>>,
        Map<Seq<char>, PushRange>,
        Map<Seq<char>, (u8, u16)>,
        int,
    ) = (Map::empty(), Map::empty(), Map::empty(), 0);
    let p1 = push_pass(p0, vert_push, false);
    let d1 = descriptor_pass((Map::empty(), Map::empty(), p1.2), vert_descriptors, false);
    let t = (p1.0, p1.1, d1.2, p1.3);
    lemma_vertex_push_pass(p0, vert_push, name);
    lemma_fragment_push_pass(t, frag_push, name);
    if let Some(b) = named(frag_push, name) {
        if let Some(a) = named(vert_push, name) {
            if pairs_view(a) == pairs_view(b) {
                lemma_block_size_view(a, b);
            }
        }
    }
}

/// The layout of the descriptor block `name`: for a block that both stages declare alike, one
/// for both stages (a combined image sampler where it holds a sampler, else a uniform buffer);
/// otherwise a vertex-stage uniform buffer where the block that counts (the fragment stage's
/// unless it holds a sampler, else the vertex stage's) holds no sampler; none else.
pub open spec fn descriptor_layout_of(
    vert_descriptors: Seq<(String, Vec<(String, String)>)>,
    frag_descriptors: Seq<(String, Vec<(String, String)>)>,
    name: Seq<char>,
) -> Option<LayoutField> {
    let uniform_vertex = LayoutField { kind: DescriptorKind::UNIFORM_BUFFER, stages: Stages::VERTEX };
    let from_vertex = match named(vert_descriptors, name) {
        Some(a) => if has_sampler(a) {
            None
        } else {
            Some(uniform_vertex)
        },
        None => None,
    };
    match named(frag_descriptors, name) {
        Some(b) => if named(vert_descriptors, name) matches Some(a) && pairs_view(a) == pairs_view(b) {
            Some(
                LayoutField {
                    kind: if has_sampler(b) {
                        DescriptorKind::COMBINED_IMAGE_SAMPLER
                    } else {
                        DescriptorKind::UNIFORM_BUFFER
                    },
                    stages: Stages::VERTEX_FRAGMENT,
                },
            )
        } else if has_sampler(b) {
            from_vertex
        } else {
            Some(uniform_vertex)
        },
        None => from_vertex,
    }
}

proof fn lemma_unique_drop_last_blocks(blocks: Seq<(String, Vec<(String, String)>)>)
    requires
        unique_names(blocks),
        blocks.len() > 0,
    ensures
        unique_names(blocks.drop_last()),
        named(blocks.drop_last(), blocks.last().0@) is None,
{
    let rest = blocks.drop_last();
    assert forall|a: int, c: int| 0 <= a < rest.len() && 0 <= c < rest.len() && a != c implies (
    #[trigger] rest[a]).0@ != (#[trigger] rest[c]).0@ by {
        assert(rest[a] == blocks[a] && rest[c] == blocks[c]);
    }
    if named(rest, blocks.last().0@) is Some {
        let i = lemma_named_index(rest, blocks.last().0@);
        assert(blocks[i] == rest[i]);
        assert(blocks[blocks.len() - 1].0@ == blocks.last().0@);
    }
}

proof fn lemma_vertex_descriptor_pass(
    s: (Map<Seq<char>, Seq<(Seq<char>, Seq<char>)>>, Map<Seq<char>, LayoutField>, Map<Seq<char>, (u8, u16)>),
    blocks: Seq<(String, Vec<(String, String)>)>,
    name: Seq<char>,
)
    requires
        s.0 == Map::<Seq<char>, Seq<(Seq<char>, Seq<char>)>>::empty(),
        s.1 == Map::<Seq<char>, LayoutField>::empty(),
        unique_names(blocks),
    ensures
        descriptor_pass(s, blocks, false).0.contains_key(name) == named(blocks, name) is Some,
        named(blocks, name) matches Some(a) ==> descriptor_pass(s, blocks, false).0[name]
            == pairs_view(a),
        descriptor_pass(s, blocks, false).1.contains_key(name) == (named(blocks, name) matches Some(
            a,
        ) && !has_sampler(a)),
        descriptor_pass(s, blocks, false).1.contains_key(name) ==> descriptor_pass(
            s,
            blocks,
            false,
        ).1[name] == (LayoutField { kind: DescriptorKind::UNIFORM_BUFFER, stages: Stages::VERTEX }),
    decreases blocks.len(),
{
    if blocks.len() > 0 {
        lemma_unique_drop_last_blocks(blocks);
        lemma_vertex_descriptor_pass(s, blocks.drop_last(), name);
    }
}

proof fn lemma_fragment_descriptor_pass(
    t: (Map<Seq<char>, Seq<(Seq<char>, Seq<char>)>>, Map<Seq<char>, LayoutField>, Map<Seq<char>, (u8, u16)>),
    blocks: Seq<(String, Vec<(String, String)>)>,
    name: Seq<char>,
)
    requires
        unique_names(blocks),
    ensures
        named(blocks, name) is None ==> {
            &&& descriptor_pass(t, blocks, true).0.contains_key(name) == t.0.contains_key(name)
            &&& descriptor_pass(t, blocks, true).0[name] == t.0[name]
            &&& descriptor_pass(t, blocks, true).1.contains_key(name) == t.1.contains_key(name)
            &&& descriptor_pass(t, blocks, true).1[name] == t.1[name]
        },
        named(blocks, name) matches Some(b) ==> if t.0.contains_key(name) && t.0[name]
            == pairs_view(b) {
            &&& descriptor_pass(t, blocks, true).1.contains_key(name)
            &&& descriptor_pass(t, blocks, true).1[name] == (LayoutField {
                kind: if has_sampler(b) {
                    DescriptorKind::COMBINED_IMAGE_SAMPLER
                } else {
                    DescriptorKind::UNIFORM_BUFFER
                },
                stages: Stages::VERTEX_FRAGMENT,
            })
        } else if has_sampler(b) {
            &&& descriptor_pass(t, blocks, true).1.contains_key(name) == t.1.contains_key(name)
            &&& descriptor_pass(t, blocks, true).1[name] == t.1[name]
        } else {
            &&& descriptor_pass(t, blocks, true).1.contains_key(name)
            &&& descriptor_pass(t, blocks, true).1[name] == (LayoutField {
                kind: DescriptorKind::UNIFORM_BUFFER,
                stages: Stages::VERTEX,
            })
        },
    decreases blocks.len(),
{
    if blocks.len() > 0 {
        lemma_unique_drop_last_blocks(blocks);
        lemma_fragment_descriptor_pass(t, blocks.drop_last(), name);
    }
}

/// The descriptor layouts of a shader are those of `descriptor_layout_of`. Each stage names
/// each block once.
pub proof fn lemma_descriptor_layouts(
    vert_push: Seq<(String, Vec<(String, String)>)>,
    vert_descriptors: Seq<(String, Vec<(String, String)>)>,
    frag_push: Seq<(String, Vec<(String, String)>)>,
    frag_descriptors: Seq<(String, Vec<(String, String)>)>,
    name: Seq<char>,
)
    requires
        unique_names(vert_descriptors),
        unique_names(frag_descriptors),
    ensures
        shader_layout(vert_push, vert_descriptors, frag_push, frag_descriptors).1.contains_key(name)
            == descriptor_layout_of(vert_descriptors, frag_descriptors, name) is Some,
        descriptor_layout_of(vert_descriptors, frag_descriptors, name) matches Some(f)
            ==> shader_layout(vert_push, vert_descriptors, frag_push, frag_descriptors).1[name] == f,
{
    let p0: (
        Map<Seq<char>, Seq<(Seq<char>, Seq<char>)>>,
        Map<Seq<char>, PushRange>,
        Map<Seq<char>, (u8, u16)>,
        int,
    ) = (Map::empty(), Map::empty(), Map::empty(), 0);
    let p1 = push_pass(p0, vert_push, false);
    let d0: (
        Map<Seq<char>, Seq<(Seq<char>, Seq<char>)>>,
        Map<Seq<char>, LayoutField>,
        Map<Seq<char>, (u8, u16)>,
    ) = (Map::empty(), Map::empty(), p1.2);
    let d1 = descriptor_pass(d0, vert_descriptors, false);
    let p2 = push_pass((p1.0, p1.1, d1.2, p1.3), frag_push, true);
    lemma_vertex_descriptor_pass(d0, vert_descriptors, name);
    lemma_fragment_descriptor_pass((d1.0, d1.1, p2.2), frag_descriptors, name);
}

/// What an index table entry points at: a block of the fragment stage or of the vertex stage.
spec fn stored_pairs(
    vert: Seq<(String, Vec<(String, String)>)>,
    frag: Seq<(String, Vec<(String, String)>)>,
    e: (bool, usize),
) -> Option<Seq<(Seq<char>, Seq<char>)>> {
    if e.0 {
        if e.1 < frag.len() {
            Some(pairs_view(frag[e.1 as int].1@))
        } else {
            None
        }
    } else {
        if e.1 < vert.len() {
            Some(pairs_view(vert[e.1 as int].1@))
        } else {
            None
        }
    }
}

/// The index table points at the blocks that the state has taken.
spec fn indexes_hold(
    ret: Map<Seq<char>, (bool, usize)>,
    vert: Seq<(String, Vec<(String, String)>)>,
    frag: Seq<(String, Vec<(String, String)>)>,
    taken: Map<Seq<char>, Seq<(Seq<char>, Seq<char>)>>,
) -> bool {
    &&& ret.dom() == taken.dom()
    &&& forall|k: Seq<char>| #[trigger]
        ret.contains_key(k) ==> stored_pairs(vert, frag, ret[k]) == Some(taken[k])
}

/// The tables of the push-constant pass hold its state.
spec fn push_tables(
    ret: Map<Seq<char>, (bool, usize)>,
    fields: Map<Seq<char>, PushRange>,
    sizes: Map<Seq<char>, (u8, u16)>,
    offset: u16,
    vert: Seq<(String, Vec<(String, String)>)>,
    frag: Seq<(String, Vec<(String, String)>)>,
    s: (
        Map<Seq<char>, Seq<(Seq<char>, Seq<char>)>>,
        Map<Seq<char>, PushRange>,
        Map<Seq<char>, (u8, u16)>,
        int,
    ),
) -> bool {
    &&& indexes_hold(ret, vert, frag, s.0)
    &&& fields == s.1
    &&& sizes == s.2
    &&& offset == s.3
    &&& s.0.dom() == s.1.dom()
}

/// The tables of the descriptor pass hold its state.
spec fn descriptor_tables(
    ret: Map<Seq<char>, (bool, usize)>,
    fields: Map<Seq<char>, LayoutField>,
    sizes: Map<Seq<char>, (u8, u16)>,
    vert: Seq<(String, Vec<(String, String)>)>,
    frag: Seq<(String, Vec<(String, String)>)>,
    s: (Map<Seq<char>, Seq<(Seq<char>, Seq<char>)>>, Map<Seq<char>, LayoutField>, Map<Seq<char>, (u8, u16)>),
) -> bool {
    &&& indexes_hold(ret, vert, frag, s.0)
    &&& fields == s.1
    &&& sizes == s.2
}

/// The pairs of the block that an index table entry points at.
fn stored_block<'a>(
    vert: &'a Vec<(String, Vec<(String, String)>)>,
    frag: &'a Vec<(String, Vec<(String, String)>)>,
    e: (bool, usize),
) -> (r: &'a Vec<(String, String)>)
    requires
        stored_pairs(vert@, frag@, e) is Some,
    ensures
        stored_pairs(vert@, frag@, e) == Some(pairs_view(r@)),
{
    if e.0 {
        &frag[e.1].1
    } else {
        &vert[e.1].1
    }
}

/// Tells whether the index table holds a block under `name` that declares the same pairs.
fn declared_alike(
    vert: &Vec<(String, Vec<(String, String)>)>,
    frag: &Vec<(String, Vec<(String, String)>)>,
    ret: &NamedTable<(bool, usize)>,
    name: &String,
    pairs: &Vec<(String, String)>,
    taken: Ghost<Map<Seq<char>, Seq<(Seq<char>, Seq<char>)>>>,
) -> (r: bool)
    requires
        indexes_hold(ret@, vert@, frag@, taken@),
    ensures
        r == (taken@.contains_key(name@) && taken@[name@] == pairs_view(pairs@)),
{
    match ret.get(name) {
        Some(e) => {
            let block = stored_block(vert, frag, *e);
            same_pairs(block, pairs)
        },
        None => false,
    }
}

/// Runs the push-constant pass over the blocks of one stage.
fn run_push_pass(
    vert: &Vec<(String, Vec<(String, String)>)>,
    frag: &Vec<(String, Vec<(String, String)>)>,
    fragment: bool,
    ret: &mut NamedTable<(bool, usize)>,
    fields: &mut NamedTable<PushRange>,
    sizes: &mut NamedTable<(u8, u16)>,
    offset: &mut u16,
    Ghost(s0): Ghost<
        (
            Map<Seq<char>, Seq<(Seq<char>, Seq<char>)>>,
            Map<Seq<char>, PushRange>,
            Map<Seq<char>, (u8, u16)>,
            int,
        ),
    >,
)
    requires
        push_tables(old(ret)@, old(fields)@, old(sizes)@, *old(offset), vert@, frag@, s0),
        blocks_fit(vert@),
        blocks_fit(frag@),
        !fragment ==> s0.3 + blocks_total(vert@) <= 65535,
    ensures
        push_tables(
            final(ret)@,
            final(fields)@,
            final(sizes)@,
            *final(offset),
            vert@,
            frag@,
            push_pass(
                s0,
                if fragment {
                    frag@
                } else {
                    vert@
                },
                fragment,
            ),
        ),
{
    let blocks = if fragment {
        frag
    } else {
        vert
    };
    let mut i: usize = 0;
    while i < blocks.len()
        invariant
            blocks@ == (if fragment {
                frag@
            } else {
                vert@
            }),
            i <= blocks@.len(),
            blocks_fit(vert@),
            blocks_fit(frag@),
            !fragment ==> s0.3 + blocks_total(vert@) <= 65535,
            !fragment ==> *offset == s0.3 + blocks_total(vert@.take(i as int)),
            push_tables(
                ret@,
                fields@,
                sizes@,
                *offset,
                vert@,
                frag@,
                push_pass(s0, blocks@.take(i as int), fragment),
            ),
        decreases blocks@.len() - i,
    {
        let ghost s = push_pass(s0, blocks@.take(i as int), fragment);
        proof {
            assert(blocks@.take(i + 1).drop_last() =~= blocks@.take(i as int));
            assert(blocks@.take(i + 1).last() == blocks@[i as int]);
            assert(block_size(blocks@[i as int].1@) <= 255);
        }
        let name = &blocks[i].0;
        let pairs = &blocks[i].1;
        let sz = pairs_size(pairs);
        if !fragment {
            proof {
                lemma_blocks_total_prefix(vert@, i + 1);
                assert(vert@.take(i + 1).drop_last() =~= vert@.take(i as int));
            }
            ret.insert(name.clone(), (false, i));
            fields.insert(name.clone(), PushRange { stages: Stages::VERTEX, offset: 0, size: sz as u32 });
            let key = push_key_of(name);
            sizes.insert(key, (sz, *offset));
            *offset = *offset + sz as u16;
        } else {
            let same = declared_alike(vert, frag, ret, name, pairs, Ghost(s.0));
            if same {
                let r = match fields.get(name) {
                    Some(r) => *r,
                    None => {
                        proof {
                            assert(false);
                        }
                        PushRange { stages: Stages::VERTEX, offset: 0, size: 0 }
                    },
                };
                fields.insert(
                    name.clone(),
                    PushRange { stages: Stages::VERTEX_FRAGMENT, offset: r.offset, size: r.size },
                );
            } else {
                ret.insert(name.clone(), (true, i));
                fields.insert(name.clone(), PushRange { stages: Stages::FRAGMENT, offset: 0, size: sz as u32 });
                if pairs.len() > 0 {
                    let key = push_key_of(name);
                    sizes.insert(key, (sz, *offset));
                }
            }
        }
        i = i + 1;
        proof {
            let t = push_pass(s0, blocks@.take(i as int), fragment);
            assert(ret@.dom() =~= t.0.dom());
            assert(fields@ =~= t.1);
            assert(sizes@ =~= t.2);
            assert(t.0.dom() =~= t.1.dom());
        }
    }
    assert(blocks@.take(blocks@.len() as int) =~= blocks@);
}

/// Runs the descriptor pass over the blocks of one stage.
fn run_descriptor_pass(
    vert: &Vec<(String, Vec<(String, String)>)>,
    frag: &Vec<(String, Vec<(String, String)>)>,
    fragment: bool,
    ret: &mut NamedTable<(bool, usize)>,
    fields: &mut NamedTable<LayoutField>,
    sizes: &mut NamedTable<(u8, u16)>,
    Ghost(s0): Ghost<
        (Map<Seq<char>, Seq<(Seq<char>, Seq<char>)>>, Map<Seq<char>, LayoutField>, Map<Seq<char>, (u8, u16)>),
    >,
)
    requires
        descriptor_tables(old(ret)@, old(fields)@, old(sizes)@, vert@, frag@, s0),
        blocks_fit(vert@),
        blocks_fit(frag@),
    ensures
        descriptor_tables(
            final(ret)@,
            final(fields)@,
            final(sizes)@,
            vert@,
            frag@,
            descriptor_pass(
                s0,
                if fragment {
                    frag@
                } else {
                    vert@
                },
                fragment,
            ),
        ),
{
    let blocks = if fragment {
        frag
    } else {
        vert
    };
    let mut i: usize = 0;
    while i < blocks.len()
        invariant
            blocks@ == (if fragment {
                frag@
            } else {
                vert@
            }),
            i <= blocks@.len(),
            blocks_fit(vert@),
            blocks_fit(frag@),
            descriptor_tables(
                ret@,
                fields@,
                sizes@,
                vert@,
                frag@,
                descriptor_pass(s0, blocks@.take(i as int), fragment),
            ),
        decreases blocks@.len() - i,
    {
        let ghost s = descriptor_pass(s0, blocks@.take(i as int), fragment);
        proof {
            assert(blocks@.take(i + 1).drop_last() =~= blocks@.take(i as int));
            assert(blocks@.take(i + 1).last() == blocks@[i as int]);
            assert(block_size(blocks@[i as int].1@) <= 255);
        }
        let name = &blocks[i].0;
        let pairs = &blocks[i].1;
        let sz = pairs_size(pairs);
        let sampler = pairs_have_sampler(pairs);
        let same = fragment && declared_alike(vert, frag, ret, name, pairs, Ghost(s.0));
        if pairs.len() > 0 {
            let key = descriptor_key_of(name);
            sizes.insert(key, (sz, 0));
        }
        if same {
            let kind = if sampler {
                DescriptorKind::COMBINED_IMAGE_SAMPLER
            } else {
                DescriptorKind::UNIFORM_BUFFER
            };
            fields.insert(name.clone(), LayoutField { kind, stages: Stages::VERTEX_FRAGMENT });
        } else {
            ret.insert(name.clone(), (fragment, i));
            if !sampler {
                fields.insert(
                    name.clone(),
                    LayoutField { kind: DescriptorKind::UNIFORM_BUFFER, stages: Stages::VERTEX },
                );
            }
        }
        i = i + 1;
        proof {
            let t = descriptor_pass(s0, blocks@.take(i as int), fragment);
            assert(ret@.dom() =~= t.0.dom());
            assert(fields@ =~= t.1);
            assert(sizes@ =~= t.2);
        }
    }
    assert(blocks@.take(blocks@.len() as int) =~= blocks@);
}

/// The push-constant ranges, the descriptor layouts and the sizes table of a shader whose
/// stages declare the given blocks.
pub fn build_layout(
    vert_push: &Vec<(String, Vec<(String, String)>)>,
    vert_descriptors: &Vec<(String, Vec<(String, String)>)>,
    frag_push: &Vec<(String, Vec<(String, String)>)>,
    frag_descriptors: &Vec<(String, Vec<(String, String)>)>,
) -> (r: (NamedTable<PushRange>, NamedTable<LayoutField>, NamedTable<(u8, u16)>))
    requires
        blocks_fit(vert_push@),
        blocks_fit(vert_descriptors@),
        blocks_fit(frag_push@),
        blocks_fit(frag_descriptors@),
        blocks_total(vert_push@) <= 65535,
    ensures
        (r.0@, r.1@, r.2@) == shader_layout(
            vert_push@,
            vert_descriptors@,
            frag_push@,
            frag_descriptors@,
        ),
{
    let mut push_taken: NamedTable<(bool, usize)> = NamedTable::new();
    let mut push_fields: NamedTable<PushRange> = NamedTable::new();
    let mut sizes: NamedTable<(u8, u16)> = NamedTable::new();
    let mut offset: u16 = 0;
    let ghost p0: (
        Map<Seq<char>, Seq<(Seq<char>, Seq<char>)>>,
        Map<Seq<char>, PushRange>,
        Map<Seq<char>, (u8, u16)>,
        int,
    ) = (Map::empty(), Map::empty(), Map::empty(), 0);
    assert(push_taken@.dom() =~= p0.0.dom());
    run_push_pass(
        vert_push,
        frag_push,
        false,
        &mut push_taken,
        &mut push_fields,
        &mut sizes,
        &mut offset,
        Ghost(p0),
    );
    let ghost p1 = push_pass(p0, vert_push@, false);
    let mut descriptor_taken: NamedTable<(bool, usize)> = NamedTable::new();
    let mut descriptor_fields: NamedTable<LayoutField> = NamedTable::new();
    let ghost d0: (
        Map<Seq<char>, Seq<(Seq<char>, Seq<char>)>>,
        Map<Seq<char>, LayoutField>,
        Map<Seq<char>, (u8, u16)>,
    ) = (Map::empty(), Map::empty(), p1.2);
    assert(descriptor_taken@.dom() =~= d0.0.dom());
    run_descriptor_pass(
        vert_descriptors,
        frag_descriptors,
        false,
        &mut descriptor_taken,
        &mut descriptor_fields,
        &mut sizes,
        Ghost(d0),
    );
    let ghost d1 = descriptor_pass(d0, vert_descriptors@, false);
    run_push_pass(
        vert_push,
        frag_push,
        true,
        &mut push_taken,
        &mut push_fields,
        &mut sizes,
        &mut offset,
        Ghost((p1.0, p1.1, d1.2, p1.3)),
    );
    let ghost p2 = push_pass((p1.0, p1.1, d1.2, p1.3), frag_push@, true);
    run_descriptor_pass(
        vert_descriptors,
        frag_descriptors,
        true,
        &mut descriptor_taken,
        &mut descriptor_fields,
        &mut sizes,
        Ghost((d1.0, d1.1, p2.2)),
    );
    (push_fields, descriptor_fields, sizes)
}

} // verus!
