use vstd::prelude::*;

use crate::layout::{blocks_fit, blocks_total, build_layout, shader_layout, LayoutField, PushRange};
use crate::table::NamedTable;
use crate::text::{find, find_char, same_chars, string_from_chars, to_chars};

verus! {

/// A type of a shader field, as the shading language names it.
#[allow(non_camel_case_types)]
#[derive(PartialEq, Eq, Structural, Debug, Clone, Copy)]
pub enum DataType {
    INT,
    UINT,
    FLOAT,
    BOOL,
    BVEC2,
    BVEC3,
    BVEC4,
    IVEC2,
    IVEC3,
    IVEC4,
    UVEC2,
    UVEC3,
    UVEC4,
    VEC2,
    VEC3,
    VEC4,
    MAT2,
    MAT3,
    MAT4,
}

/// The type that a name stands for, if any.
pub open spec fn data_type_named(s: Seq<char>) -> Option<DataType> {
    if s == seq!['i', 'n', 't'] {
        Some(DataType::INT)
    } else if s == seq!['u', 'i', 'n', 't'] {
        Some(DataType::UINT)
    } else if s == seq!['f', 'l', 'o', 'a', 't'] {
        Some(DataType::FLOAT)
    } else if s == seq!['b', 'o', 'o', 'l'] {
        Some(DataType::BOOL)
    } else if s == seq!['b', 'v', 'e', 'c', '2'] {
        Some(DataType::BVEC2)
    } else if s == seq!['b', 'v', 'e', 'c', '3'] {
        Some(DataType::BVEC3)
    } else if s == seq!['b', 'v', 'e', 'c', '4'] {
        Some(DataType::BVEC4)
    } else if s == seq!['i', 'v', 'e', 'c', '2'] {
        Some(DataType::IVEC2)
    } else if s == seq!['i', 'v', 'e', 'c', '3'] {
        Some(DataType::IVEC3)
    } else if s == seq!['i', 'v', 'e', 'c', '4'] {
        Some(DataType::IVEC4)
    } else if s == seq!['u', 'v', 'e', 'c', '2'] {
        Some(DataType::UVEC2)
    } else if s == seq!['u', 'v', 'e', 'c', '3'] {
        Some(DataType::UVEC3)
    } else if s == seq!['u', 'v', 'e', 'c', '4'] {
        Some(DataType::UVEC4)
    } else if s == seq!['v', 'e', 'c', '2'] {
        Some(DataType::VEC2)
    } else if s == seq!['v', 'e', 'c', '3'] {
        Some(DataType::VEC3)
    } else if s == seq!['v', 'e', 'c', '4'] {
        Some(DataType::VEC4)
    } else if s == seq!['m', 'a', 't', '2'] {
        Some(DataType::MAT2)
    } else if s == seq!['m', 'a', 't', '3'] {
        Some(DataType::MAT3)
    } else if s == seq!['m', 'a', 't', '4'] {
        Some(DataType::MAT4)
    } else {
        None
    }
}

impl DataType {
    /// The name of the type.
    pub open spec fn spec_name(self) -> Seq<char> {
        match self {
            DataType::INT => seq!['i', 'n', 't'],
            DataType::UINT => seq!['u', 'i', 'n', 't'],
            DataType::FLOAT => seq!['f', 'l', 'o', 'a', 't'],
            DataType::BOOL => seq!['b', 'o', 'o', 'l'],
            DataType::BVEC2 => seq!['b', 'v', 'e', 'c', '2'],
            DataType::BVEC3 => seq!['b', 'v', 'e', 'c', '3'],
            DataType::BVEC4 => seq!['b', 'v', 'e', 'c', '4'],
            DataType::IVEC2 => seq!['i', 'v', 'e', 'c', '2'],
            DataType::IVEC3 => seq!['i', 'v', 'e', 'c', '3'],
            DataType::IVEC4 => seq!['i', 'v', 'e', 'c', '4'],
            DataType::UVEC2 => seq!['u', 'v', 'e', 'c', '2'],
            DataType::UVEC3 => seq!['u', 'v', 'e', 'c', '3'],
            DataType::UVEC4 => seq!['u', 'v', 'e', 'c', '4'],
            DataType::VEC2 => seq!['v', 'e', 'c', '2'],
            DataType::VEC3 => seq!['v', 'e', 'c', '3'],
            DataType::VEC4 => seq!['v', 'e', 'c', '4'],
            DataType::MAT2 => seq!['m', 'a', 't', '2'],
            DataType::MAT3 => seq!['m', 'a', 't', '3'],
            DataType::MAT4 => seq!['m', 'a', 't', '4'],
        }
    }

    /// The name of the type, as characters.
    pub fn name(&self) -> (r: Vec<char>)
        ensures
            r@ == self.spec_name(),
    {
        match self {
            DataType::INT => vec!['i', 'n', 't'],
            DataType::UINT => vec!['u', 'i', 'n', 't'],
            DataType::FLOAT => vec!['f', 'l', 'o', 'a', 't'],
            DataType::BOOL => vec!['b', 'o', 'o', 'l'],
            DataType::BVEC2 => vec!['b', 'v', 'e', 'c', '2'],
            DataType::BVEC3 => vec!['b', 'v', 'e', 'c', '3'],
            DataType::BVEC4 => vec!['b', 'v', 'e', 'c', '4'],
            DataType::IVEC2 => vec!['i', 'v', 'e', 'c', '2'],
            DataType::IVEC3 => vec!['i', 'v', 'e', 'c', '3'],
            DataType::IVEC4 => vec!['i', 'v', 'e', 'c', '4'],
            DataType::UVEC2 => vec!['u', 'v', 'e', 'c', '2'],
            DataType::UVEC3 => vec!['u', 'v', 'e', 'c', '3'],
            DataType::UVEC4 => vec!['u', 'v', 'e', 'c', '4'],
            DataType::VEC2 => vec!['v', 'e', 'c', '2'],
            DataType::VEC3 => vec!['v', 'e', 'c', '3'],
            DataType::VEC4 => vec!['v', 'e', 'c', '4'],
            DataType::MAT2 => vec!['m', 'a', 't', '2'],
            DataType::MAT3 => vec!['m', 'a', 't', '3'],
            DataType::MAT4 => vec!['m', 'a', 't', '4'],
        }
    }
}

/// The type that a name stands for, if any.
pub fn data_type_from_name(name: &Vec<char>) -> (r: Option<DataType>)
    ensures
        r == data_type_named(name@),
{
    let all: [DataType; 19] = [
        DataType::INT,
        DataType::UINT,
        DataType::FLOAT,
        DataType::BOOL,
        DataType::BVEC2,
        DataType::BVEC3,
        DataType::BVEC4,
        DataType::IVEC2,
        DataType::IVEC3,
        DataType::IVEC4,
        DataType::UVEC2,
        DataType::UVEC3,
        DataType::UVEC4,
        DataType::VEC2,
        DataType::VEC3,
        DataType::VEC4,
        DataType::MAT2,
        DataType::MAT3,
        DataType::MAT4,
    ];
    let mut i: usize = 0;
    while i < 19
        invariant
            i <= 19,
            all@ == seq![
                DataType::INT,
                DataType::UINT,
                DataType::FLOAT,
                DataType::BOOL,
                DataType::BVEC2,
                DataType::BVEC3,
                DataType::BVEC4,
                DataType::IVEC2,
                DataType::IVEC3,
                DataType::IVEC4,
                DataType::UVEC2,
                DataType::UVEC3,
                DataType::UVEC4,
                DataType::VEC2,
                DataType::VEC3,
                DataType::VEC4,
                DataType::MAT2,
                DataType::MAT3,
                DataType::MAT4,
            ],
            forall|k: int| 0 <= k < i ==> name@ != (#[trigger] all@[k]).spec_name(),
        decreases 19 - i,
    {
        let t = all[i];
        let n = t.name();
        if same_chars(name, &n) {
            return Some(t);
        }
        i = i + 1;
    }
    assert(forall|k: int| 0 <= k < 19 ==> name@ != (#[trigger] all@[k]).spec_name());
    assert(name@ != all@[0].spec_name());
    assert(name@ != all@[1].spec_name());
    assert(name@ != all@[2].spec_name());
    assert(name@ != all@[3].spec_name());
    assert(name@ != all@[4].spec_name());
    assert(name@ != all@[5].spec_name());
    assert(name@ != all@[6].spec_name());
    assert(name@ != all@[7].spec_name());
    assert(name@ != all@[8].spec_name());
    assert(name@ != all@[9].spec_name());
    assert(name@ != all@[10].spec_name());
    assert(name@ != all@[11].spec_name());
    assert(name@ != all@[12].spec_name());
    assert(name@ != all@[13].spec_name());
    assert(name@ != all@[14].spec_name());
    assert(name@ != all@[15].spec_name());
    assert(name@ != all@[16].spec_name());
    assert(name@ != all@[17].spec_name());
    assert(name@ != all@[18].spec_name());
    None
}

/// A value of a shader field; a float is held by its bits.
#[allow(non_camel_case_types)]
#[derive(Debug, Clone, Copy)]
pub enum ConvertType {
    INT(i32),
    UINT(u32),
    FLOAT(u32),
    BOOL(bool),
    BVEC2([bool; 2]),
    BVEC3([bool; 3]),
    BVEC4([bool; 4]),
    IVEC2([i32; 2]),
    IVEC3([i32; 3]),
    IVEC4([i32; 4]),
    UVEC2([u32; 2]),
    UVEC3([u32; 3]),
    UVEC4([u32; 4]),
    VEC2([u32; 2]),
    VEC3([u32; 3]),
    VEC4([u32; 4]),
    MAT2([u32; 4]),
    MAT3([u32; 9]),
    MAT4([u32; 16]),
}

impl ConvertType {
    /// The type of the value.
    pub open spec fn spec_data_type(self) -> DataType {
        match self {
            ConvertType::INT(_) => DataType::INT,
            ConvertType::UINT(_) => DataType::UINT,
            ConvertType::FLOAT(_) => DataType::FLOAT,
            ConvertType::BOOL(_) => DataType::BOOL,
            ConvertType::BVEC2(_) => DataType::BVEC2,
            ConvertType::BVEC3(_) => DataType::BVEC3,
            ConvertType::BVEC4(_) => DataType::BVEC4,
            ConvertType::IVEC2(_) => DataType::IVEC2,
            ConvertType::IVEC3(_) => DataType::IVEC3,
            ConvertType::IVEC4(_) => DataType::IVEC4,
            ConvertType::UVEC2(_) => DataType::UVEC2,
            ConvertType::UVEC3(_) => DataType::UVEC3,
            ConvertType::UVEC4(_) => DataType::UVEC4,
            ConvertType::VEC2(_) => DataType::VEC2,
            ConvertType::VEC3(_) => DataType::VEC3,
            ConvertType::VEC4(_) => DataType::VEC4,
            ConvertType::MAT2(_) => DataType::MAT2,
            ConvertType::MAT3(_) => DataType::MAT3,
            ConvertType::MAT4(_) => DataType::MAT4,
        }
    }

    /// The type of the value.
    pub fn data_type(&self) -> (t: DataType)
        ensures
            t == self.spec_data_type(),
    {
        match self {
            ConvertType::INT(_) => DataType::INT,
            ConvertType::UINT(_) => DataType::UINT,
            ConvertType::FLOAT(_) => DataType::FLOAT,
            ConvertType::BOOL(_) => DataType::BOOL,
            ConvertType::BVEC2(_) => DataType::BVEC2,
            ConvertType::BVEC3(_) => DataType::BVEC3,
            ConvertType::BVEC4(_) => DataType::BVEC4,
            ConvertType::IVEC2(_) => DataType::IVEC2,
            ConvertType::IVEC3(_) => DataType::IVEC3,
            ConvertType::IVEC4(_) => DataType::IVEC4,
            ConvertType::UVEC2(_) => DataType::UVEC2,
            ConvertType::UVEC3(_) => DataType::UVEC3,
            ConvertType::UVEC4(_) => DataType::UVEC4,
            ConvertType::VEC2(_) => DataType::VEC2,
            ConvertType::VEC3(_) => DataType::VEC3,
            ConvertType::VEC4(_) => DataType::VEC4,
            ConvertType::MAT2(_) => DataType::MAT2,
            ConvertType::MAT3(_) => DataType::MAT3,
            ConvertType::MAT4(_) => DataType::MAT4,
        }
    }
}

/// The default of a type: all components zero or false (a float zero has all bits clear),
/// except a matrix, whose default is the identity (1.0, bits `0x3F80_0000`, on the diagonal
/// of the columns, 0 elsewhere).
pub open spec fn default_of(t: DataType) -> ConvertType {
    match t {
        DataType::INT => ConvertType::INT(0),
        DataType::UINT => ConvertType::UINT(0),
        DataType::FLOAT => ConvertType::FLOAT(0),
        DataType::BOOL => ConvertType::BOOL(false),
        DataType::BVEC2 => ConvertType::BVEC2([false, false]),
        DataType::BVEC3 => ConvertType::BVEC3([false, false, false]),
        DataType::BVEC4 => ConvertType::BVEC4([false, false, false, false]),
        DataType::IVEC2 => ConvertType::IVEC2([0i32, 0i32]),
        DataType::IVEC3 => ConvertType::IVEC3([0i32, 0i32, 0i32]),
        DataType::IVEC4 => ConvertType::IVEC4([0i32, 0i32, 0i32, 0i32]),
        DataType::UVEC2 => ConvertType::UVEC2([0u32, 0u32]),
        DataType::UVEC3 => ConvertType::UVEC3([0u32, 0u32, 0u32]),
        DataType::UVEC4 => ConvertType::UVEC4([0u32, 0u32, 0u32, 0u32]),
        DataType::VEC2 => ConvertType::VEC2([0u32, 0u32]),
        DataType::VEC3 => ConvertType::VEC3([0u32, 0u32, 0u32]),
        DataType::VEC4 => ConvertType::VEC4([0u32, 0u32, 0u32, 0u32]),
        DataType::MAT2 => ConvertType::MAT2([0x3F80_0000u32, 0u32, 0u32, 0x3F80_0000u32]),
        DataType::MAT3 => ConvertType::MAT3([0x3F80_0000u32, 0u32, 0u32, 0u32, 0x3F80_0000u32, 0u32, 0u32, 0u32, 0x3F80_0000u32]),
        DataType::MAT4 => ConvertType::MAT4([0x3F80_0000u32, 0u32, 0u32, 0u32, 0u32, 0x3F80_0000u32, 0u32, 0u32, 0u32, 0u32, 0x3F80_0000u32, 0u32, 0u32, 0u32, 0u32, 0x3F80_0000u32]),
    }
}

/// The default of a type.
pub fn default_value(t: DataType) -> (r: ConvertType)
    ensures
        r == default_of(t),
{
    match t {
        DataType::INT => ConvertType::INT(0),
        DataType::UINT => ConvertType::UINT(0),
        DataType::FLOAT => ConvertType::FLOAT(0),
        DataType::BOOL => ConvertType::BOOL(false),
        DataType::BVEC2 => ConvertType::BVEC2([false, false]),
        DataType::BVEC3 => ConvertType::BVEC3([false, false, false]),
        DataType::BVEC4 => ConvertType::BVEC4([false, false, false, false]),
        DataType::IVEC2 => ConvertType::IVEC2([0i32, 0i32]),
        DataType::IVEC3 => ConvertType::IVEC3([0i32, 0i32, 0i32]),
        DataType::IVEC4 => ConvertType::IVEC4([0i32, 0i32, 0i32, 0i32]),
        DataType::UVEC2 => ConvertType::UVEC2([0u32, 0u32]),
        DataType::UVEC3 => ConvertType::UVEC3([0u32, 0u32, 0u32]),
        DataType::UVEC4 => ConvertType::UVEC4([0u32, 0u32, 0u32, 0u32]),
        DataType::VEC2 => ConvertType::VEC2([0u32, 0u32]),
        DataType::VEC3 => ConvertType::VEC3([0u32, 0u32, 0u32]),
        DataType::VEC4 => ConvertType::VEC4([0u32, 0u32, 0u32, 0u32]),
        DataType::MAT2 => ConvertType::MAT2([0x3F80_0000u32, 0u32, 0u32, 0x3F80_0000u32]),
        DataType::MAT3 => ConvertType::MAT3([0x3F80_0000u32, 0u32, 0u32, 0u32, 0x3F80_0000u32, 0u32, 0u32, 0u32, 0x3F80_0000u32]),
        DataType::MAT4 => ConvertType::MAT4([0x3F80_0000u32, 0u32, 0u32, 0u32, 0u32, 0x3F80_0000u32, 0u32, 0u32, 0u32, 0u32, 0x3F80_0000u32, 0u32, 0u32, 0u32, 0u32, 0x3F80_0000u32]),
    }
}

/// The byte that stands for a boolean in a buffer.
pub open spec fn bool_byte(b: bool) -> u8 {
    if b {
        1
    } else {
        0
    }
}

/// The four bytes of a word, least significant first.
pub open spec fn word_le(w: u32) -> Seq<u8> {
    seq![(w % 256) as u8, (w / 256 % 256) as u8, (w / 65536 % 256) as u8, (w / 16777216) as u8]
}

/// The four bytes of a word in the given order: least significant first when `little`.
pub open spec fn word_in_order(w: u32, little: bool) -> Seq<u8> {
    if little {
        word_le(w)
    } else {
        word_le(w).reverse()
    }
}

/// The bytes of words one after another, each in the given order.
pub open spec fn words_in_order(ws: Seq<u32>, little: bool) -> Seq<u8>
    decreases ws.len(),
{
    if ws.len() == 0 {
        Seq::empty()
    } else {
        words_in_order(ws.drop_last(), little) + word_in_order(ws.last(), little)
    }
}

/// The bytes of booleans one after another.
pub open spec fn bools_bytes(bs: Seq<bool>) -> Seq<u8> {
    bs.map_values(|b: bool| bool_byte(b))
}

/// The words of signed integers, bit for bit.
pub open spec fn signed_words(xs: Seq<i32>) -> Seq<u32> {
    xs.map_values(|x: i32| x as u32)
}

/// The bytes of a value as a buffer holds it: a byte a boolean, four bytes a number (in the
/// given order), components and matrix columns one after another.
pub open spec fn value_bytes(v: ConvertType, little: bool) -> Seq<u8> {
    match v {
        ConvertType::INT(x) => word_in_order(x as u32, little),
        ConvertType::UINT(x) => word_in_order(x, little),
        ConvertType::FLOAT(x) => word_in_order(x, little),
        ConvertType::BOOL(b) => seq![bool_byte(b)],
        ConvertType::BVEC2(a) => bools_bytes(a@),
        ConvertType::BVEC3(a) => bools_bytes(a@),
        ConvertType::BVEC4(a) => bools_bytes(a@),
        ConvertType::IVEC2(a) => words_in_order(signed_words(a@), little),
        ConvertType::IVEC3(a) => words_in_order(signed_words(a@), little),
        ConvertType::IVEC4(a) => words_in_order(signed_words(a@), little),
        ConvertType::UVEC2(a) => words_in_order(a@, little),
        ConvertType::UVEC3(a) => words_in_order(a@, little),
        ConvertType::UVEC4(a) => words_in_order(a@, little),
        ConvertType::VEC2(a) => words_in_order(a@, little),
        ConvertType::VEC3(a) => words_in_order(a@, little),
        ConvertType::VEC4(a) => words_in_order(a@, little),
        ConvertType::MAT2(a) => words_in_order(a@, little),
        ConvertType::MAT3(a) => words_in_order(a@, little),
        ConvertType::MAT4(a) => words_in_order(a@, little),
    }
}

/// The bytes of a word in the machine's order, as `u32::to_ne_bytes` gives them: the machine
/// stores words either least or most significant byte first.
#[verifier::external_body]
fn native_word_bytes(w: u32) -> (r: [u8; 4])
    ensures
        r@ == word_le(w) || r@ == word_le(w).reverse(),
{
    w.to_ne_bytes()
}

/// Appends the bytes of a word in the given order.
fn push_word(buffer: &mut Vec<u8>, w: u32, little: bool)
    ensures
        final(buffer)@ == old(buffer)@ + word_in_order(w, little),
{
    let b0 = (w % 256) as u8;
    let b1 = (w / 256 % 256) as u8;
    let b2 = (w / 65536 % 256) as u8;
    let b3 = (w / 16777216) as u8;
    if little {
        buffer.push(b0);
        buffer.push(b1);
        buffer.push(b2);
        buffer.push(b3);
    } else {
        buffer.push(b3);
        buffer.push(b2);
        buffer.push(b1);
        buffer.push(b0);
    }
    assert(buffer@ =~= old(buffer)@ + word_in_order(w, little));
}

/// Appends the bytes of words in the given order.
fn push_words(buffer: &mut Vec<u8>, ws: &[u32], little: bool)
    ensures
        final(buffer)@ == old(buffer)@ + words_in_order(ws@, little),
{
    let mut i: usize = 0;
    while i < ws.len()
        invariant
            i <= ws@.len(),
            buffer@ == old(buffer)@ + words_in_order(ws@.take(i as int), little),
        decreases ws@.len() - i,
    {
        push_word(buffer, ws[i], little);
        i = i + 1;
        assert(ws@.take(i as int).drop_last() =~= ws@.take(i - 1));
        assert(buffer@ =~= old(buffer)@ + words_in_order(ws@.take(i as int), little));
    }
    assert(ws@.take(ws@.len() as int) =~= ws@);
}

/// Appends the bytes of signed integers, bit for bit, in the given order.
fn push_signed_words(buffer: &mut Vec<u8>, xs: &[i32], little: bool)
    ensures
        final(buffer)@ == old(buffer)@ + words_in_order(signed_words(xs@), little),
{
    let mut i: usize = 0;
    while i < xs.len()
        invariant
            i <= xs@.len(),
            buffer@ == old(buffer)@ + words_in_order(signed_words(xs@.take(i as int)), little),
        decreases xs@.len() - i,
    {
        push_word(buffer, xs[i] as u32, little);
        i = i + 1;
        assert(signed_words(xs@.take(i as int)).drop_last() =~= signed_words(xs@.take(i - 1)));
        assert(buffer@ =~= old(buffer)@ + words_in_order(signed_words(xs@.take(i as int)), little));
    }
    assert(xs@.take(xs@.len() as int) =~= xs@);
}

/// Appends the bytes of booleans.
fn push_bools(buffer: &mut Vec<u8>, bs: &[bool])
    ensures
        final(buffer)@ == old(buffer)@ + bools_bytes(bs@),
{
    let mut i: usize = 0;
    while i < bs.len()
        invariant
            i <= bs@.len(),
            buffer@ == old(buffer)@ + bools_bytes(bs@.take(i as int)),
        decreases bs@.len() - i,
    {
        buffer.push(if bs[i] {
            1
        } else {
            0
        });
        i = i + 1;
        assert(buffer@ =~= old(buffer)@ + bools_bytes(bs@.take(i as int)));
    }
    assert(bs@.take(bs@.len() as int) =~= bs@);
}

impl ConvertType {
    /// Appends the bytes of the value in the given order (least significant byte first when
    /// `little_endian`).
    pub fn to_bytes(&self, little_endian: bool, buffer: &mut Vec<u8>)
        ensures
            final(buffer)@ == old(buffer)@ + value_bytes(*self, little_endian),
    {
        match self {
            ConvertType::INT(x) => push_word(buffer, *x as u32, little_endian),
            ConvertType::UINT(x) => push_word(buffer, *x, little_endian),
            ConvertType::FLOAT(x) => push_word(buffer, *x, little_endian),
            ConvertType::BOOL(b) => {
                buffer.push(if *b {
                    1
                } else {
                    0
                });
            },
            ConvertType::BVEC2(a) => push_bools(buffer, a),
            ConvertType::BVEC3(a) => push_bools(buffer, a),
            ConvertType::BVEC4(a) => push_bools(buffer, a),
            ConvertType::IVEC2(a) => push_signed_words(buffer, a, little_endian),
            ConvertType::IVEC3(a) => push_signed_words(buffer, a, little_endian),
            ConvertType::IVEC4(a) => push_signed_words(buffer, a, little_endian),
            ConvertType::UVEC2(a) => push_words(buffer, a, little_endian),
            ConvertType::UVEC3(a) => push_words(buffer, a, little_endian),
            ConvertType::UVEC4(a) => push_words(buffer, a, little_endian),
            ConvertType::VEC2(a) => push_words(buffer, a, little_endian),
            ConvertType::VEC3(a) => push_words(buffer, a, little_endian),
            ConvertType::VEC4(a) => push_words(buffer, a, little_endian),
            ConvertType::MAT2(a) => push_words(buffer, a, little_endian),
            ConvertType::MAT3(a) => push_words(buffer, a, little_endian),
            ConvertType::MAT4(a) => push_words(buffer, a, little_endian),
        }
    }

    /// Appends the bytes of the value in the machine's byte order, which is one of the two.
    pub fn to_ne_bytes(&self, buffer: &mut Vec<u8>)
        ensures
            final(buffer)@ == old(buffer)@ + value_bytes(*self, true) || final(buffer)@ == old(
                buffer,
            )@ + value_bytes(*self, false),
    {
        let probe = native_word_bytes(1);
        let little = probe[0] == 1;
        self.to_bytes(little, buffer);
    }
}

/// A field of a uniform block: its name, the name of its type, and its value, none until set.
pub struct FieldData {
    pub name: String,
    pub data_type: String,
    pub value: Option<ConvertType>,
}

/// The field that a (type name, field name) pair declares, with no value yet.
pub open spec fn field_of(pair: (String, String)) -> FieldData {
    FieldData { name: pair.1, data_type: pair.0, value: None }
}

/// The fields that the pairs declare, in order.
pub open spec fn fields_of(pairs: Seq<(String, String)>) -> Seq<FieldData> {
    pairs.map_values(|p: (String, String)| field_of(p))
}

/// The blocks by name, each with its fields; of two blocks with one name the later counts.
pub open spec fn blocks_table(blocks: Seq<(String, Vec<(String, String)>)>) -> Map<
    Seq<char>,
    Seq<FieldData>,
>
    decreases blocks.len(),
{
    if blocks.len() == 0 {
        Map::empty()
    } else {
        blocks_table(blocks.drop_last()).insert(blocks.last().0@, fields_of(blocks.last().1@))
    }
}

/// A table of field vectors holds exactly the given fields by name.
pub open spec fn table_holds(
    t: Map<Seq<char>, Vec<FieldData>>,
    m: Map<Seq<char>, Seq<FieldData>>,
) -> bool {
    &&& t.dom() == m.dom()
    &&& forall|k: Seq<char>| #[trigger] t.contains_key(k) ==> t[k]@ == m[k]
}

/// What reading a field gives: for a known type, the value held when it has that type and
/// the type's default otherwise; nothing for an unknown type.
pub open spec fn field_value(f: FieldData) -> Option<ConvertType> {
    match data_type_named(f.data_type@) {
        None => None,
        Some(t) => Some(
            match f.value {
                Some(v) => if v.spec_data_type() == t {
                    v
                } else {
                    default_of(t)
                },
                None => default_of(t),
            },
        ),
    }
}

/// A location split at its first dot into the block's name and the field's name.
pub open spec fn split_location(s: Seq<char>) -> (Seq<char>, Option<Seq<char>>) {
    match find(s, '.') {
        Some(i) => (s.take(i), Some(s.skip(i + 1))),
        None => (s, None),
    }
}

/// A field has the name and the type.
pub open spec fn field_matches(f: FieldData, name: Seq<char>, t: DataType) -> bool {
    f.name@ == name && f.data_type@ == t.spec_name()
}

/// The first field from `k` on with the name and the type.
pub open spec fn first_match_from(fields: Seq<FieldData>, name: Seq<char>, t: DataType, k: int) -> Option<
    int,
>
    decreases fields.len() - k,
{
    if k < 0 || k >= fields.len() {
        None
    } else if field_matches(fields[k], name, t) {
        Some(k)
    } else {
        first_match_from(fields, name, t, k + 1)
    }
}

/// A first match lies in range and matches.
proof fn lemma_first_match_in_range(fields: Seq<FieldData>, name: Seq<char>, t: DataType, k: int)
    ensures
        first_match_from(fields, name, t, k) matches Some(i) ==> k <= i < fields.len()
            && field_matches(fields[i], name, t),
    decreases fields.len() - k,
{
    if 0 <= k < fields.len() && !field_matches(fields[k], name, t) {
        lemma_first_match_in_range(fields, name, t, k + 1);
    }
}

/// The block and the position of the field that a location names for a value of type `t`:
/// the first field of that block with the name and the type.
pub open spec fn target_field(
    table: Map<Seq<char>, Vec<FieldData>>,
    location: Seq<char>,
    t: DataType,
) -> Option<(Seq<char>, int)> {
    let (head, rest) = split_location(location);
    if table.contains_key(head) && rest is Some {
        match first_match_from(table[head]@, rest->0, t, 0) {
            Some(i) => Some((head, i)),
            None => None,
        }
    } else {
        None
    }
}

/// A location without a dot that names a block with fields: there is no field name to look for.
pub open spec fn location_lacks_field(table: Map<Seq<char>, Vec<FieldData>>, location: Seq<char>) -> bool {
    let (head, rest) = split_location(location);
    table.contains_key(head) && rest is None && table[head]@.len() > 0
}

/// The characters of `v` from `lo` to `hi`.
fn chars_between(v: &Vec<char>, lo: usize, hi: usize) -> (r: Vec<char>)
    requires
        lo <= hi <= v@.len(),
    ensures
        r@ == v@.subrange(lo as int, hi as int),
{
    let mut r: Vec<char> = Vec::new();
    let mut i = lo;
    while i < hi
        invariant
            lo <= i <= hi,
            hi <= v@.len(),
            r@ == v@.subrange(lo as int, i as int),
        decreases hi - i,
    {
        r.push(v[i]);
        i = i + 1;
        assert(r@ =~= v@.subrange(lo as int, i as int));
    }
    r
}

/// The fields that the pairs declare.
fn make_fields(pairs: &Vec<(String, String)>) -> (r: Vec<FieldData>)
    ensures
        r@ == fields_of(pairs@),
{
    let mut r: Vec<FieldData> = Vec::new();
    let mut i: usize = 0;
    while i < pairs.len()
        invariant
            i <= pairs@.len(),
            r@ == fields_of(pairs@.take(i as int)),
        decreases pairs@.len() - i,
    {
        let name = pairs[i].1.clone();
        let data_type = pairs[i].0.clone();
        r.push(FieldData { name, data_type, value: None });
        i = i + 1;
        assert(r@ =~= fields_of(pairs@.take(i as int)));
    }
    assert(pairs@.take(pairs@.len() as int) =~= pairs@);
    r
}

/// The blocks by name, each with its fields.
fn table_of_blocks(blocks: &Vec<(String, Vec<(String, String)>)>) -> (t: NamedTable<Vec<FieldData>>)
    ensures
        table_holds(t@, blocks_table(blocks@)),
{
    let mut t: NamedTable<Vec<FieldData>> = NamedTable::new();
    let mut i: usize = 0;
    while i < blocks.len()
        invariant
            i <= blocks@.len(),
            table_holds(t@, blocks_table(blocks@.take(i as int))),
        decreases blocks@.len() - i,
    {
        let name = blocks[i].0.clone();
        let fields = make_fields(&blocks[i].1);
        t.insert(name, fields);
        i = i + 1;
        assert(blocks@.take(i as int).drop_last() =~= blocks@.take(i - 1));
        assert(t@.dom() =~= blocks_table(blocks@.take(i as int)).dom());
    }
    assert(blocks@.take(blocks@.len() as int) =~= blocks@);
    t
}

/// The blocks of two stages by name, each with its fields; the second stage's count over the
/// first's.
fn table_of_stages(
    first: &Vec<(String, Vec<(String, String)>)>,
    second: &Vec<(String, Vec<(String, String)>)>,
) -> (t: NamedTable<Vec<FieldData>>)
    ensures
        table_holds(t@, blocks_table(first@ + second@)),
{
    let mut t = table_of_blocks(first);
    let mut j: usize = 0;
    while j < second.len()
        invariant
            j <= second@.len(),
            table_holds(t@, blocks_table(first@ + second@.take(j as int))),
        decreases second@.len() - j,
    {
        proof {
            if j == 0 {
                assert(first@ + second@.take(0) =~= first@);
            }
        }
        let name = second[j].0.clone();
        let fields = make_fields(&second[j].1);
        t.insert(name, fields);
        j = j + 1;
        assert((first@ + second@.take(j as int)).drop_last() =~= first@ + second@.take(j - 1));
        assert((first@ + second@.take(j as int)).last() == second@[j - 1]);
        assert(t@.dom() =~= blocks_table(first@ + second@.take(j as int)).dom());
    }
    proof {
        if second@.len() == 0 {
            assert(first@ + second@ =~= first@);
        }
    }
    assert(second@.take(second@.len() as int) =~= second@);
    t
}

/// The position of the first field with the name and the type.
fn first_field(fields: &Vec<FieldData>, name: &Vec<char>, t: DataType) -> (r: Option<usize>)
    ensures
        match r {
            Some(i) => first_match_from(fields@, name@, t, 0) == Some(i as int),
            None => first_match_from(fields@, name@, t, 0) is None,
        },
{
    let kind_name = t.name();
    let mut k: usize = 0;
    while k < fields.len()
        invariant
            k <= fields@.len(),
            kind_name@ == t.spec_name(),
            first_match_from(fields@, name@, t, 0) == first_match_from(fields@, name@, t, k as int),
        decreases fields@.len() - k,
    {
        let fname = to_chars(fields[k].name.as_str());
        let ftype = to_chars(fields[k].data_type.as_str());
        if same_chars(&fname, name) && same_chars(&ftype, &kind_name) {
            return Some(k);
        }
        k = k + 1;
    }
    None
}

/// The outcome of setting the field that `location` names to `value`: where there is such a
/// field, the first one of the block with the name and the value's type gets the value and the
/// call succeeds; otherwise nothing changes and the error says so. Only push constants change.
pub open spec fn uniform_set(
    before: Shader,
    after: Shader,
    location: Seq<char>,
    value: ConvertType,
    r: Result<(), &str>,
) -> bool {
    &&& after.descriptor_values@ == before.descriptor_values@
    &&& after.push_fields@ == before.push_fields@
    &&& after.descriptor_fields@ == before.descriptor_fields@
    &&& after.value_sizes@ == before.value_sizes@
    &&& after.vert_path == before.vert_path
    &&& after.frag_path == before.frag_path
    &&& match target_field(before.push_values@, location, value.spec_data_type()) {
        Some((head, i)) => {
            let fs = before.push_values@[head]@;
            &&& r is Ok
            &&& after.push_values@ == before.push_values@.insert(head, after.push_values@[head])
            &&& after.push_values@[head]@ == fs.update(
                i,
                FieldData { name: fs[i].name, data_type: fs[i].data_type, value: Some(value) },
            )
        },
        None => {
            &&& r matches Err(e) && e@ == "Failed to get the value!"@
            &&& after.push_values@ == before.push_values@
        },
    }
}

/// A shader: the paths of its two stages, the values of its push constants and uniform
/// descriptors block by block, the push-constant ranges and descriptor layouts of its blocks,
/// and the sizes table (by "PUSH-" or "DESCRIPTOR-" and the block's name: its size in bytes and
/// its offset).
pub struct Shader {
    pub vert_path: String,
    pub frag_path: String,
    pub push_values: NamedTable<Vec<FieldData>>,
    pub descriptor_values: NamedTable<Vec<FieldData>>,
    pub push_fields: NamedTable<PushRange>,
    pub descriptor_fields: NamedTable<LayoutField>,
    pub value_sizes: NamedTable<(u8, u16)>,
}

impl Shader {
    /// A shader whose stages declare the given push-constant and descriptor blocks. The value
    /// tables hold the blocks (those of the vertex stage, then those of the fragment stage,
    /// which count over them), every field without a value; the ranges, layouts and sizes are
    /// those of `shader_layout`. Each block's size must fit in a byte and the vertex stage's
    /// push constants together in 16 bits.
    pub fn new(
        vert_file_path: &str,
        frag_file_path: &str,
        vert_push: &Vec<(String, Vec<(String, String)>)>,
        vert_descriptors: &Vec<(String, Vec<(String, String)>)>,
        frag_push: &Vec<(String, Vec<(String, String)>)>,
        frag_descriptors: &Vec<(String, Vec<(String, String)>)>,
    ) -> (s: Self)
        requires
            blocks_fit(vert_push@),
            blocks_fit(vert_descriptors@),
            blocks_fit(frag_push@),
            blocks_fit(frag_descriptors@),
            blocks_total(vert_push@) <= 65535,
        ensures
            s.vert_path@ == vert_file_path@,
            s.frag_path@ == frag_file_path@,
            table_holds(s.push_values@, blocks_table(vert_push@ + frag_push@)),
            table_holds(s.descriptor_values@, blocks_table(vert_descriptors@ + frag_descriptors@)),
            (s.push_fields@, s.descriptor_fields@, s.value_sizes@) == shader_layout(
                vert_push@,
                vert_descriptors@,
                frag_push@,
                frag_descriptors@,
            ),
    {
        let (push_fields, descriptor_fields, value_sizes) = build_layout(
            vert_push,
            vert_descriptors,
            frag_push,
            frag_descriptors,
        );
        Shader {
            vert_path: vert_file_path.to_owned(),
            frag_path: frag_file_path.to_owned(),
            push_values: table_of_stages(vert_push, frag_push),
            descriptor_values: table_of_stages(vert_descriptors, frag_descriptors),
            push_fields,
            descriptor_fields,
            value_sizes,
        }
    }

    /// The value of a field as its type reads it.
    pub fn get_field_value(field_data: &FieldData) -> (r: Option<ConvertType>)
        ensures
            r == field_value(*field_data),
    {
        let kind_name = to_chars(field_data.data_type.as_str());
        match data_type_from_name(&kind_name) {
            None => None,
            Some(t) => match field_data.value {
                Some(v) => {
                    if v.data_type() == t {
                        Some(v)
                    } else {
                        Some(default_value(t))
                    }
                },
                None => Some(default_value(t)),
            },
        }
    }

    /// Sets the push-constant field that `location` ("block.field") names, among those of the
    /// value's type: the first such field of the block. Nothing else changes, and where there
    /// is no such field nothing changes at all and the error says so.
    pub fn change_uniform(&mut self, location: &str, value: ConvertType) -> (r: Result<(), &'static str>)
        requires
            !location_lacks_field(old(self).push_values@, location@),
        ensures
            uniform_set(*old(self), *final(self), location@, value, r),
    {
        let chars = to_chars(location);
        let n = chars.len();
        let (head, rest) = match find_char(&chars, '.') {
            Some(i) => (chars_between(&chars, 0, i), Some(chars_between(&chars, i + 1, n))),
            None => (chars_between(&chars, 0, n), None),
        };
        assert(chars@.subrange(0, n as int) =~= chars@);
        let head_name = string_from_chars(&head);
        let found: Option<usize> = match self.push_values.get(&head_name) {
            None => None,
            Some(fields) => match rest {
                None => None,
                Some(rest) => first_field(fields, &rest, value.data_type()),
            },
        };
        match found {
            None => {
                Err("Failed to get the value!")
            },
            Some(i) => {
                proof {
                    lemma_first_match_in_range(
                        old(self).push_values@[head@]@,
                        split_location(location@).1->0,
                        value.spec_data_type(),
                        0,
                    );
                }
                let mut fs = self.push_values.replace(&head_name, Vec::new());
                let mut f = fs.remove(i);
                f.value = Some(value);
                fs.insert(i, f);
                let ghost ofs = old(self).push_values@[head@]@;
                assert(fs@ =~= ofs.update(
                    i as int,
                    FieldData { name: ofs[i as int].name, data_type: ofs[i as int].data_type, value: Some(value) },
                ));
                self.push_values.replace(&head_name, fs);
                assert(self.push_values@ =~= old(self).push_values@.insert(head@, self.push_values@[head@]));
                Ok(())
            },
        }
    }

    /// Sets an `int` field named by `location`.
    pub fn change_uniform_1i(&mut self, location: &str, v1: i32) -> (r: Result<(), &'static str>)
        requires
            !location_lacks_field(old(self).push_values@, location@),
        ensures
            uniform_set(*old(self), *final(self), location@, ConvertType::INT(v1), r),
    {
        self.change_uniform(location, ConvertType::INT(v1))
    }

    /// Sets an `ivec2` field named by `location`.
    pub fn change_uniform_2i(&mut self, location: &str, v1: i32, v2: i32) -> (r: Result<(), &'static str>)
        requires
            !location_lacks_field(old(self).push_values@, location@),
        ensures
            uniform_set(*old(self), *final(self), location@, ConvertType::IVEC2([v1, v2]), r),
    {
        self.change_uniform(location, ConvertType::IVEC2([v1, v2]))
    }

    /// Sets an `ivec3` field named by `location`.
    pub fn change_uniform_3i(&mut self, location: &str, v1: i32, v2: i32, v3: i32) -> (r: Result<(), &'static str>)
        requires
            !location_lacks_field(old(self).push_values@, location@),
        ensures
            uniform_set(*old(self), *final(self), location@, ConvertType::IVEC3([v1, v2, v3]), r),
    {
        self.change_uniform(location, ConvertType::IVEC3([v1, v2, v3]))
    }

    /// Sets an `ivec4` field named by `location`.
    pub fn change_uniform_4i(&mut self, location: &str, v1: i32, v2: i32, v3: i32, v4: i32) -> (r: Result<(), &'static str>)
        requires
            !location_lacks_field(old(self).push_values@, location@),
        ensures
            uniform_set(*old(self), *final(self), location@, ConvertType::IVEC4([v1, v2, v3, v4]), r),
    {
        self.change_uniform(location, ConvertType::IVEC4([v1, v2, v3, v4]))
    }

    /// Sets an `ivec2` field named by `location`.
    pub fn change_uniform_ivec2(&mut self, location: &str, v1: [i32; 2]) -> (r: Result<(), &'static str>)
        requires
            !location_lacks_field(old(self).push_values@, location@),
        ensures
            uniform_set(*old(self), *final(self), location@, ConvertType::IVEC2(v1), r),
    {
        self.change_uniform(location, ConvertType::IVEC2(v1))
    }

    /// Sets an `ivec3` field named by `location`.
    pub fn change_uniform_ivec3(&mut self, location: &str, v1: [i32; 3]) -> (r: Result<(), &'static str>)
        requires
            !location_lacks_field(old(self).push_values@, location@),
        ensures
            uniform_set(*old(self), *final(self), location@, ConvertType::IVEC3(v1), r),
    {
        self.change_uniform(location, ConvertType::IVEC3(v1))
    }

    /// Sets an `ivec4` field named by `location`.
    pub fn change_uniform_ivec4(&mut self, location: &str, v1: [i32; 4]) -> (r: Result<(), &'static str>)
        requires
            !location_lacks_field(old(self).push_values@, location@),
        ensures
            uniform_set(*old(self), *final(self), location@, ConvertType::IVEC4(v1), r),
    {
        self.change_uniform(location, ConvertType::IVEC4(v1))
    }

    /// Sets a `bool` field named by `location`.
    pub fn change_uniform_1b(&mut self, location: &str, v1: bool) -> (r: Result<(), &'static str>)
        requires
            !location_lacks_field(old(self).push_values@, location@),
        ensures
            uniform_set(*old(self), *final(self), location@, ConvertType::BOOL(v1), r),
    {
        self.change_uniform(location, ConvertType::BOOL(v1))
    }

    /// Sets a `bvec2` field named by `location`.
    pub fn change_uniform_2b(&mut self, location: &str, v1: bool, v2: bool) -> (r: Result<(), &'static str>)
        requires
            !location_lacks_field(old(self).push_values@, location@),
        ensures
            uniform_set(*old(self), *final(self), location@, ConvertType::BVEC2([v1, v2]), r),
    {
        self.change_uniform(location, ConvertType::BVEC2([v1, v2]))
    }

    /// Sets a `bvec3` field named by `location`.
    pub fn change_uniform_3b(&mut self, location: &str, v1: bool, v2: bool, v3: bool) -> (r: Result<(), &'static str>)
        requires
            !location_lacks_field(old(self).push_values@, location@),
        ensures
            uniform_set(*old(self), *final(self), location@, ConvertType::BVEC3([v1, v2, v3]), r),
    {
        self.change_uniform(location, ConvertType::BVEC3([v1, v2, v3]))
    }

    /// Sets a `bvec4` field named by `location`.
    pub fn change_uniform_4b(&mut self, location: &str, v1: bool, v2: bool, v3: bool, v4: bool) -> (r: Result<(), &'static str>)
        requires
            !location_lacks_field(old(self).push_values@, location@),
        ensures
            uniform_set(*old(self), *final(self), location@, ConvertType::BVEC4([v1, v2, v3, v4]), r),
    {
        self.change_uniform(location, ConvertType::BVEC4([v1, v2, v3, v4]))
    }

    /// Sets a `bvec2` field named by `location`.
    pub fn change_uniform_bvec2(&mut self, location: &str, v1: [bool; 2]) -> (r: Result<(), &'static str>)
        requires
            !location_lacks_field(old(self).push_values@, location@),
        ensures
            uniform_set(*old(self), *final(self), location@, ConvertType::BVEC2(v1), r),
    {
        self.change_uniform(location, ConvertType::BVEC2(v1))
    }

    /// Sets a `bvec3` field named by `location`.
    pub fn change_uniform_bvec3(&mut self, location: &str, v1: [bool; 3]) -> (r: Result<(), &'static str>)
        requires
            !location_lacks_field(old(self).push_values@, location@),
        ensures
            uniform_set(*old(self), *final(self), location@, ConvertType::BVEC3(v1), r),
    {
        self.change_uniform(location, ConvertType::BVEC3(v1))
    }

    /// Sets a `bvec4` field named by `location`.
    pub fn change_uniform_bvec4(&mut self, location: &str, v1: [bool; 4]) -> (r: Result<(), &'static str>)
        requires
            !location_lacks_field(old(self).push_values@, location@),
        ensures
            uniform_set(*old(self), *final(self), location@, ConvertType::BVEC4(v1), r),
    {
        self.change_uniform(location, ConvertType::BVEC4(v1))
    }

    /// Sets a `uint` field named by `location`.
    pub fn change_uniform_1u(&mut self, location: &str, v1: u32) -> (r: Result<(), &'static str>)
        requires
            !location_lacks_field(old(self).push_values@, location@),
        ensures
            uniform_set(*old(self), *final(self), location@, ConvertType::UINT(v1), r),
    {
        self.change_uniform(location, ConvertType::UINT(v1))
    }

    /// Sets a `uvec2` field named by `location`.
    pub fn change_uniform_2u(&mut self, location: &str, v1: u32, v2: u32) -> (r: Result<(), &'static str>)
        requires
            !location_lacks_field(old(self).push_values@, location@),
        ensures
            uniform_set(*old(self), *final(self), location@, ConvertType::UVEC2([v1, v2]), r),
    {
        self.change_uniform(location, ConvertType::UVEC2([v1, v2]))
    }

    /// Sets a `uvec3` field named by `location`.
    pub fn change_uniform_3u(&mut self, location: &str, v1: u32, v2: u32, v3: u32) -> (r: Result<(), &'static str>)
        requires
            !location_lacks_field(old(self).push_values@, location@),
        ensures
            uniform_set(*old(self), *final(self), location@, ConvertType::UVEC3([v1, v2, v3]), r),
    {
        self.change_uniform(location, ConvertType::UVEC3([v1, v2, v3]))
    }

    /// Sets a `uvec4` field named by `location`.
    pub fn change_uniform_4u(&mut self, location: &str, v1: u32, v2: u32, v3: u32, v4: u32) -> (r: Result<(), &'static str>)
        requires
            !location_lacks_field(old(self).push_values@, location@),
        ensures
            uniform_set(*old(self), *final(self), location@, ConvertType::UVEC4([v1, v2, v3, v4]), r),
    {
        self.change_uniform(location, ConvertType::UVEC4([v1, v2, v3, v4]))
    }

    /// Sets a `uvec2` field named by `location`.
    pub fn change_uniform_uvec2(&mut self, location: &str, v1: [u32; 2]) -> (r: Result<(), &'static str>)
        requires
            !location_lacks_field(old(self).push_values@, location@),
        ensures
            uniform_set(*old(self), *final(self), location@, ConvertType::UVEC2(v1), r),
    {
        self.change_uniform(location, ConvertType::UVEC2(v1))
    }

    /// Sets a `uvec3` field named by `location`.
    pub fn change_uniform_uvec3(&mut self, location: &str, v1: [u32; 3]) -> (r: Result<(), &'static str>)
        requires
            !location_lacks_field(old(self).push_values@, location@),
        ensures
            uniform_set(*old(self), *final(self), location@, ConvertType::UVEC3(v1), r),
    {
        self.change_uniform(location, ConvertType::UVEC3(v1))
    }

    /// Sets a `uvec4` field named by `location`.
    pub fn change_uniform_uvec4(&mut self, location: &str, v1: [u32; 4]) -> (r: Result<(), &'static str>)
        requires
            !location_lacks_field(old(self).push_values@, location@),
        ensures
            uniform_set(*old(self), *final(self), location@, ConvertType::UVEC4(v1), r),
    {
        self.change_uniform(location, ConvertType::UVEC4(v1))
    }
}


/// Each type's name stands for that type.
pub proof fn lemma_name_names_type(t: DataType)
    ensures
        data_type_named(t.spec_name()) == Some(t),
{
    let n = t.spec_name();
    assert(n.len() >= 3);
    match t {
        DataType::INT => {},
        DataType::UINT => {
            assert(n[0] != 'i');
        },
        DataType::FLOAT => {
            assert(n[0] != 'u');
        },
        DataType::BOOL => {
            assert(n[0] != 'u');
        },
        DataType::BVEC2 => {
            assert(n[0] != 'f');
        },
        DataType::BVEC3 => {
            assert(n[4] != '2');
        },
        DataType::BVEC4 => {
            assert(n[4] != '2' && n[4] != '3');
        },
        DataType::IVEC2 => {
            assert(n[0] != 'b' && n[0] != 'f');
        },
        DataType::IVEC3 => {
            assert(n[0] != 'b' && n[0] != 'f' && n[4] != '2');
        },
        DataType::IVEC4 => {
            assert(n[0] != 'b' && n[0] != 'f' && n[4] != '2' && n[4] != '3');
        },
        DataType::UVEC2 => {
            assert(n[0] != 'b' && n[0] != 'f' && n[0] != 'i');
        },
        DataType::UVEC3 => {
            assert(n[0] != 'b' && n[0] != 'f' && n[0] != 'i' && n[4] != '2');
        },
        DataType::UVEC4 => {
            assert(n[0] != 'b' && n[0] != 'f' && n[0] != 'i' && n[4] != '2' && n[4] != '3');
        },
        DataType::VEC2 => {
            assert(n[0] != 'u' && n[0] != 'b' && n[0] != 'i');
        },
        DataType::VEC3 => {
            assert(n[0] != 'u' && n[0] != 'b' && n[0] != 'i' && n[3] != '2');
        },
        DataType::VEC4 => {
            assert(n[0] != 'u' && n[0] != 'b' && n[0] != 'i' && n[3] != '2' && n[3] != '3');
        },
        DataType::MAT2 => {
            assert(n[0] != 'u' && n[0] != 'b' && n[0] != 'v');
        },
        DataType::MAT3 => {
            assert(n[0] != 'u' && n[0] != 'b' && n[0] != 'v' && n[3] != '2');
        },
        DataType::MAT4 => {
            assert(n[0] != 'u' && n[0] != 'b' && n[0] != 'v' && n[3] != '2' && n[3] != '3');
        },
    }
}

/// Byte `k` of a word, counting from the least significant (byte 0 is `w % 256`).
pub open spec fn byte_of_word(w: u32, k: int) -> u8 {
    let scale: int = if k == 0 {
        1
    } else if k == 1 {
        256
    } else if k == 2 {
        65536
    } else {
        16777216
    };
    ((w as int / scale) % 256) as u8
}

/// The 32-bit words of a numeric value, component by component and column by column (a
/// signed component bit for bit); none for a boolean value.
pub open spec fn numeric_words(v: ConvertType) -> Option<Seq<u32>> {
    match v {
        ConvertType::INT(x) => Some(seq![x as u32]),
        ConvertType::UINT(x) => Some(seq![x]),
        ConvertType::FLOAT(x) => Some(seq![x]),
        ConvertType::BOOL(_) | ConvertType::BVEC2(_) | ConvertType::BVEC3(_) | ConvertType::BVEC4(
            _,
        ) => None,
        ConvertType::IVEC2(a) => Some(Seq::new(2, |i: int| a[i] as u32)),
        ConvertType::IVEC3(a) => Some(Seq::new(3, |i: int| a[i] as u32)),
        ConvertType::IVEC4(a) => Some(Seq::new(4, |i: int| a[i] as u32)),
        ConvertType::UVEC2(a) => Some(Seq::new(2, |i: int| a[i])),
        ConvertType::UVEC3(a) => Some(Seq::new(3, |i: int| a[i])),
        ConvertType::UVEC4(a) => Some(Seq::new(4, |i: int| a[i])),
        ConvertType::VEC2(a) => Some(Seq::new(2, |i: int| a[i])),
        ConvertType::VEC3(a) => Some(Seq::new(3, |i: int| a[i])),
        ConvertType::VEC4(a) => Some(Seq::new(4, |i: int| a[i])),
        ConvertType::MAT2(a) => Some(Seq::new(4, |i: int| a[i])),
        ConvertType::MAT3(a) => Some(Seq::new(9, |i: int| a[i])),
        ConvertType::MAT4(a) => Some(Seq::new(16, |i: int| a[i])),
    }
}

/// The booleans of a boolean value; none for a numeric value.
pub open spec fn boolean_parts(v: ConvertType) -> Option<Seq<bool>> {
    match v {
        ConvertType::BOOL(b) => Some(seq![b]),
        ConvertType::BVEC2(a) => Some(Seq::new(2, |i: int| a[i])),
        ConvertType::BVEC3(a) => Some(Seq::new(3, |i: int| a[i])),
        ConvertType::BVEC4(a) => Some(Seq::new(4, |i: int| a[i])),
        _ => None,
    }
}

proof fn lemma_words_in_order_bytes(ws: Seq<u32>, little: bool)
    ensures
        words_in_order(ws, little).len() == 4 * ws.len(),
        forall|i: int|
            0 <= i < 4 * ws.len() ==> #[trigger] words_in_order(ws, little)[i] == byte_of_word(
                ws[i / 4],
                if little {
                    i % 4
                } else {
                    3 - i % 4
                },
            ),
    decreases ws.len(),
{
    if ws.len() > 0 {
        let init = ws.drop_last();
        let w = ws.last();
        lemma_words_in_order_bytes(init, little);
        let n = init.len();
        assert(word_le(w)[0] == byte_of_word(w, 0));
        assert(word_le(w)[1] == byte_of_word(w, 1));
        assert(word_le(w)[2] == byte_of_word(w, 2));
        assert(word_le(w)[3] == byte_of_word(w, 3));
        assert forall|i: int| 0 <= i < 4 * ws.len() implies #[trigger] words_in_order(ws, little)[i]
            == byte_of_word(
            ws[i / 4],
            if little {
                i % 4
            } else {
                3 - i % 4
            },
        ) by {
            if i < 4 * n {
                assert(words_in_order(ws, little)[i] == words_in_order(init, little)[i]);
                assert(i / 4 < n);
                assert(init[i / 4] == ws[i / 4]);
            } else {
                assert(i / 4 == n);
                assert(words_in_order(ws, little)[i] == word_in_order(w, little)[i - 4 * n]);
                assert(i % 4 == i - 4 * n);
            }
        }
    }
}

proof fn lemma_single_word(w: u32, little: bool)
    ensures
        words_in_order(seq![w], little) == word_in_order(w, little),
{
    let ws = seq![w];
    assert(ws.drop_last() =~= Seq::<u32>::empty());
    assert(ws.last() == w);
    assert(words_in_order(Seq::<u32>::empty(), little) == Seq::<u8>::empty());
    assert(Seq::<u8>::empty() + word_in_order(w, little) =~= word_in_order(w, little));
}

/// The bytes that a value takes in a buffer are its words one after another, each written in
/// the requested order (byte `j` of a word in the buffer is its byte `j` from the least
/// significant when `little`, byte `3 - j` otherwise), and a byte a boolean (1 for true, 0 for
/// false). So every numeric type, a matrix as much as a `uint`, is written the same way.
pub proof fn lemma_value_bytes_layout(v: ConvertType, little: bool)
    ensures
        numeric_words(v) matches Some(ws) ==> {
            &&& value_bytes(v, little).len() == 4 * ws.len()
            &&& forall|i: int|
                0 <= i < 4 * ws.len() ==> #[trigger] value_bytes(v, little)[i] == byte_of_word(
                    ws[i / 4],
                    if little {
                        i % 4
                    } else {
                        3 - i % 4
                    },
                )
        },
        boolean_parts(v) matches Some(bs) ==> {
            &&& value_bytes(v, little).len() == bs.len()
            &&& forall|i: int|
                0 <= i < bs.len() ==> #[trigger] value_bytes(v, little)[i] == if bs[i] {
                    1u8
                } else {
                    0u8
                }
        },
{
    match v {
        ConvertType::INT(x) => {
            lemma_single_word(x as u32, little);
            lemma_words_in_order_bytes(seq![x as u32], little);
        },
        ConvertType::UINT(x) => {
            lemma_single_word(x, little);
            lemma_words_in_order_bytes(seq![x], little);
        },
        ConvertType::FLOAT(x) => {
            lemma_single_word(x, little);
            lemma_words_in_order_bytes(seq![x], little);
        },
        ConvertType::BOOL(b) => {},
        ConvertType::BVEC2(a) => {},
        ConvertType::BVEC3(a) => {},
        ConvertType::BVEC4(a) => {},
        ConvertType::IVEC2(a) => {
            assert(signed_words(a@) =~= numeric_words(v)->Some_0);
            lemma_words_in_order_bytes(signed_words(a@), little);
        },
        ConvertType::IVEC3(a) => {
            assert(signed_words(a@) =~= numeric_words(v)->Some_0);
            lemma_words_in_order_bytes(signed_words(a@), little);
        },
        ConvertType::IVEC4(a) => {
            assert(signed_words(a@) =~= numeric_words(v)->Some_0);
            lemma_words_in_order_bytes(signed_words(a@), little);
        },
        ConvertType::UVEC2(a) => {
            assert(a@ =~= numeric_words(v)->Some_0);
            lemma_words_in_order_bytes(a@, little);
        },
        ConvertType::UVEC3(a) => {
            assert(a@ =~= numeric_words(v)->Some_0);
            lemma_words_in_order_bytes(a@, little);
        },
        ConvertType::UVEC4(a) => {
            assert(a@ =~= numeric_words(v)->Some_0);
            lemma_words_in_order_bytes(a@, little);
        },
        ConvertType::VEC2(a) => {
            assert(a@ =~= numeric_words(v)->Some_0);
            lemma_words_in_order_bytes(a@, little);
        },
        ConvertType::VEC3(a) => {
            assert(a@ =~= numeric_words(v)->Some_0);
            lemma_words_in_order_bytes(a@, little);
        },
        ConvertType::VEC4(a) => {
            assert(a@ =~= numeric_words(v)->Some_0);
            lemma_words_in_order_bytes(a@, little);
        },
        ConvertType::MAT2(a) => {
            assert(a@ =~= numeric_words(v)->Some_0);
            lemma_words_in_order_bytes(a@, little);
        },
        ConvertType::MAT3(a) => {
            assert(a@ =~= numeric_words(v)->Some_0);
            lemma_words_in_order_bytes(a@, little);
        },
        ConvertType::MAT4(a) => {
            assert(a@ =~= numeric_words(v)->Some_0);
            lemma_words_in_order_bytes(a@, little);
        },
    }
}

/// The bits of 1.0 as a 32-bit float.
pub open spec fn float_one() -> u32 {
    0x3F80_0000
}

/// The default of every matrix type is the identity: with `n` the matrix's dimension, its
/// component `i * n + j` (row `j` of column `i`) is 1.0 when `i == j` and 0 otherwise.
pub proof fn lemma_matrix_defaults_are_identity()
    ensures
        default_of(DataType::MAT2) matches ConvertType::MAT2(a) && forall|i: int, j: int|
            0 <= i < 2 && 0 <= j < 2 ==> #[trigger] a[i * 2 + j] == if i == j {
                float_one()
            } else {
                0
            },
        default_of(DataType::MAT3) matches ConvertType::MAT3(a) && forall|i: int, j: int|
            0 <= i < 3 && 0 <= j < 3 ==> #[trigger] a[i * 3 + j] == if i == j {
                float_one()
            } else {
                0
            },
        default_of(DataType::MAT4) matches ConvertType::MAT4(a) && forall|i: int, j: int|
            0 <= i < 4 && 0 <= j < 4 ==> #[trigger] a[i * 4 + j] == if i == j {
                float_one()
            } else {
                0
            },
{
    if let ConvertType::MAT2(a) = default_of(DataType::MAT2) {
        assert forall|i: int, j: int| 0 <= i < 2 && 0 <= j < 2 implies #[trigger] a[i * 2 + j] == if i == j {
            float_one()
        } else {
            0
        } by {
            if i == 0 {
            } else {
                assert(i == 1);
            }
        }
    }
    if let ConvertType::MAT3(a) = default_of(DataType::MAT3) {
        assert forall|i: int, j: int| 0 <= i < 3 && 0 <= j < 3 implies #[trigger] a[i * 3 + j] == if i == j {
            float_one()
        } else {
            0
        } by {
            if i == 0 {
            } else if i == 1 {
            } else {
                assert(i == 2);
            }
        }
    }
    if let ConvertType::MAT4(a) = default_of(DataType::MAT4) {
        assert forall|i: int, j: int| 0 <= i < 4 && 0 <= j < 4 implies #[trigger] a[i * 4 + j] == if i == j {
            float_one()
        } else {
            0
        } by {
            if i == 0 {
            } else if i == 1 {
            } else if i == 2 {
            } else {
                assert(i == 3);
            }
        }
    }
}

/// The default of a type is a value of that type; of every type but a matrix, all its words
/// are zero and all its booleans false.
pub proof fn lemma_other_defaults_are_zero(t: DataType)
    ensures
        default_of(t).spec_data_type() == t,
        t != DataType::MAT2 && t != DataType::MAT3 && t != DataType::MAT4 ==> {
            &&& numeric_words(default_of(t)) matches Some(ws) ==> forall|i: int|
                0 <= i < ws.len() ==> #[trigger] ws[i] == 0u32
            &&& boolean_parts(default_of(t)) matches Some(bs) ==> forall|i: int|
                0 <= i < bs.len() ==> !#[trigger] bs[i]
        },
{
}

/// A field that was set reads back as the value set.
pub proof fn lemma_set_then_get(
    before: Shader,
    after: Shader,
    location: Seq<char>,
    value: ConvertType,
    r: Result<(), &str>,
)
    requires
        uniform_set(before, after, location, value, r),
        r is Ok,
    ensures
        target_field(before.push_values@, location, value.spec_data_type()) matches Some((head, i))
            && field_value(after.push_values@[head]@[i]) == Some(value),
{
    let t = value.spec_data_type();
    let (head, rest) = split_location(location);
    lemma_first_match_in_range(before.push_values@[head]@, rest->0, t, 0);
    lemma_name_names_type(t);
}

} // verus!
