use vstd::prelude::*;

use crate::table::NamedTable;
use crate::text::{
    all_space, ascii_ci_eq, find, lowers_to, has_pattern, join_spaced, lower_word, parse_u32, split_on,
    strip_char, strip_three, views, words,
};
use crate::text::{
    all_digits, digits_value, is_digit, is_one_of, lemma_strip_three_all, lemma_strip_three_concat,
    lemma_strip_three_none,
};
use crate::text::{
    contains_pattern, equals_ignoring_ascii_case, find_char, is_all_space, join_with_spaces,
    parse_decimal_u32, remove_char, remove_chars, same_chars, split_chars, split_words,
    string_from_chars, to_chars,
};

verus! {

/// Where a parsed shader value goes.
#[allow(non_camel_case_types)]
#[derive(Debug, Clone, Copy, PartialEq, Eq)]
pub enum INSERT_TYPE {
    PUSH,
    DESCRIPTOR,
    STRUCT,
    EMPTY,
}

/// What the parser learns of one uniform: the byte size written above a uniform block
/// (0 for a sampler), its binding, and for a sampler the kind of image it takes
/// (1 color, 2 depth, 3 cubemap color, 4 cubemap depth; 0 for a uniform block).
#[derive(Debug, Clone, Copy, PartialEq, Eq)]
pub struct DescriptorData {
    pub size: u32,
    pub binding: u32,
    pub value: u32,
}

pub open spec fn pat_line_comment() -> Seq<char> {
    seq!['/', '/']
}

pub open spec fn pat_block_end() -> Seq<char> {
    seq!['*', '/']
}

pub open spec fn pat_block_start() -> Seq<char> {
    seq!['/', '*']
}

pub open spec fn pat_uniform() -> Seq<char> {
    seq!['u', 'n', 'i', 'f', 'o', 'r', 'm']
}

pub open spec fn pat_push_constant() -> Seq<char> {
    seq!['p', 'u', 's', 'h', '_', 'c', 'o', 'n', 's', 't', 'a', 'n', 't']
}

pub open spec fn pat_sampler_2d() -> Seq<char> {
    seq!['s', 'a', 'm', 'p', 'l', 'e', 'r', '2', 'D']
}

pub open spec fn pat_sampler_cube() -> Seq<char> {
    seq!['s', 'a', 'm', 'p', 'l', 'e', 'r', 'C', 'u', 'b', 'e']
}

pub open spec fn pat_binding() -> Seq<char> {
    seq!['b', 'i', 'n', 'd', 'i', 'n', 'g']
}

pub open spec fn word_color() -> Seq<char> {
    seq!['c', 'o', 'l', 'o', 'r']
}

pub open spec fn word_depth() -> Seq<char> {
    seq!['d', 'e', 'p', 't', 'h']
}

pub open spec fn word_cubemap_color() -> Seq<char> {
    seq!['c', 'u', 'b', 'e', 'm', 'a', 'p', '-', 'c', 'o', 'l', 'o', 'r']
}

pub open spec fn word_cubemap_depth() -> Seq<char> {
    seq!['c', 'u', 'b', 'e', 'm', 'a', 'p', '-', 'd', 'e', 'p', 't', 'h']
}

/// A line that the parser passes over: blank, or holding a comment marker.
pub open spec fn skipped_line(line: Seq<char>) -> bool {
    all_space(line) || has_pattern(line, pat_line_comment()) || has_pattern(line, pat_block_end())
        || has_pattern(line, pat_block_start())
}

/// A sampler uniform declaration line.
pub open spec fn sampler_line(line: Seq<char>) -> bool {
    has_pattern(line, pat_uniform()) && !has_pattern(line, pat_push_constant()) && (has_pattern(
        line,
        pat_sampler_2d(),
    ) || has_pattern(line, pat_sampler_cube()))
}

/// A uniform block declaration line (no sampler, no push constant).
pub open spec fn block_line(line: Seq<char>) -> bool {
    !has_pattern(line, pat_sampler_2d()) && !has_pattern(line, pat_sampler_cube()) && has_pattern(
        line,
        pat_uniform(),
    ) && !has_pattern(line, pat_push_constant())
}

/// The annotation line above a declaration without `/`, spaces and carriage returns.
pub open spec fn annotation(line: Seq<char>) -> Seq<char> {
    strip_three(line, '/', ' ', '\r')
}

/// The image kind that an annotation names, compared without regard to ASCII case;
/// anything else counts as a color image.
pub open spec fn image_kind(t: Seq<char>) -> u32 {
    if ascii_ci_eq(t, word_color()) {
        1
    } else if ascii_ci_eq(t, word_depth()) {
        2
    } else if ascii_ci_eq(t, word_cubemap_color()) {
        3
    } else if ascii_ci_eq(t, word_cubemap_depth()) {
        4
    } else {
        1
    }
}

/// The first position at or after `i` of the word `w` in `ws`.
pub open spec fn find_word_from(ws: Seq<Seq<char>>, w: Seq<char>, i: int) -> Option<int>
    decreases ws.len() - i,
{
    if i < 0 || i >= ws.len() {
        None
    } else if ws[i] == w {
        Some(i)
    } else {
        find_word_from(ws, w, i + 1)
    }
}

/// The binding in the comma separated items between the parentheses, from item `i` on:
/// the third word of the first item that has the word `binding`, or 0 when none has it;
/// `None` where that third word is missing or is no number.
pub open spec fn binding_in_items(items: Seq<Seq<char>>, i: int) -> Option<u32>
    decreases items.len() - i,
{
    if i < 0 || i >= items.len() {
        Some(0)
    } else {
        let ws = words(items[i]);
        if ws.contains(pat_binding()) {
            if ws.len() < 3 {
                None
            } else {
                parse_u32(ws[2])
            }
        } else {
            binding_in_items(items, i + 1)
        }
    }
}

/// The binding of a declaration line given by its words: read from the text between the
/// first `(` and the first `)` of the words joined with spaces. `None` when there is no
/// such pair in that order, or the binding cannot be read.
pub open spec fn descriptor_binding(ws: Seq<Seq<char>>) -> Option<u32> {
    let line = join_spaced(ws);
    match (find(line, '('), find(line, ')')) {
        (Some(p), Some(q)) => if q < p + 1 {
            None
        } else {
            binding_in_items(split_on(line.subrange(p + 1, q), ','), 0)
        },
        _ => None,
    }
}

/// What line `index` of the cleaned lines adds to the table: `Some(None)` nothing,
/// `Some(Some((name, data)))` one entry, `None` a line that the format rejects.
pub open spec fn line_entry(lines: Seq<Seq<char>>, index: int) -> Option<
    Option<(Seq<char>, DescriptorData)>,
> {
    let line = lines[index];
    if skipped_line(line) {
        Some(None)
    } else {
        let ws = words(line);
        if sampler_line(line) {
            match find_word_from(ws, pat_uniform(), 0) {
                None => None,
                Some(k) => if index < 1 || k + 2 >= ws.len() {
                    None
                } else {
                    match descriptor_binding(ws) {
                        None => None,
                        Some(b) => Some(
                            Some(
                                (
                                    ws[k + 2],
                                    DescriptorData {
                                        size: 0,
                                        binding: b,
                                        value: image_kind(annotation(lines[index - 1])),
                                    },
                                ),
                            ),
                        ),
                    }
                },
            }
        } else if block_line(line) {
            match find_word_from(ws, pat_uniform(), 0) {
                None => None,
                Some(k) => if index < 1 || k + 1 >= ws.len() {
                    None
                } else {
                    match (parse_u32(annotation(lines[index - 1])), descriptor_binding(ws)) {
                        (Some(size), Some(b)) => Some(
                            Some((ws[k + 1], DescriptorData { size, binding: b, value: 0 })),
                        ),
                        _ => None,
                    }
                },
            }
        } else {
            Some(None)
        }
    }
}

/// A character that an annotation line may hold around its number: `/`, a space or a
/// carriage return.
pub open spec fn decoration(c: char) -> bool {
    c == '/' || c == ' ' || c == '\r'
}

/// The annotation of a line made of a word between decorations is the word, when the word
/// holds no decoration.
proof fn lemma_annotation_of(line: Seq<char>, before: Seq<char>, word: Seq<char>, after: Seq<char>)
    requires
        line == before + word + after,
        forall|i: int| 0 <= i < before.len() ==> decoration(#[trigger] before[i]),
        forall|i: int| 0 <= i < after.len() ==> decoration(#[trigger] after[i]),
        forall|i: int| 0 <= i < word.len() ==> !decoration(#[trigger] word[i]),
    ensures
        annotation(line) == word,
{
    assert forall|i: int| 0 <= i < before.len() implies is_one_of(#[trigger] before[i], '/', ' ', '\r') by {
        assert(decoration(before[i]));
    }
    assert forall|i: int| 0 <= i < after.len() implies is_one_of(#[trigger] after[i], '/', ' ', '\r') by {
        assert(decoration(after[i]));
    }
    assert forall|i: int| 0 <= i < word.len() implies !is_one_of(#[trigger] word[i], '/', ' ', '\r') by {
        assert(!decoration(word[i]));
    }
    lemma_strip_three_all(before, '/', ' ', '\r');
    lemma_strip_three_all(after, '/', ' ', '\r');
    lemma_strip_three_none(word, '/', ' ', '\r');
    lemma_strip_three_concat(before + word, after, '/', ' ', '\r');
    lemma_strip_three_concat(before, word, '/', ' ', '\r');
    assert(Seq::<char>::empty() + word + Seq::<char>::empty() =~= word);
}

/// A sampler declaration whose annotation line above names an image kind between slashes,
/// spaces and carriage returns (such as `// depth`) is read with size 0, its binding, the
/// second word after `uniform` as its name, and the kind's number: 1 for `color`, 2 for
/// `depth`, 3 for `cubemap-color`, 4 for `cubemap-depth`.
pub proof fn lemma_sampler_kind_from_annotation(
    lines: Seq<Seq<char>>,
    index: int,
    before: Seq<char>,
    word: Seq<char>,
    after: Seq<char>,
)
    requires
        1 <= index < lines.len(),
        !skipped_line(lines[index]),
        sampler_line(lines[index]),
        find_word_from(words(lines[index]), pat_uniform(), 0) is Some,
        find_word_from(words(lines[index]), pat_uniform(), 0)->Some_0 + 2 < words(lines[index]).len(),
        descriptor_binding(words(lines[index])) is Some,
        lines[index - 1] == before + word + after,
        forall|i: int| 0 <= i < before.len() ==> decoration(#[trigger] before[i]),
        forall|i: int| 0 <= i < after.len() ==> decoration(#[trigger] after[i]),
        word == word_color() || word == word_depth() || word == word_cubemap_color() || word
            == word_cubemap_depth(),
    ensures
        line_entry(lines, index) == Some(
            Some(
                (
                    words(lines[index])[find_word_from(words(lines[index]), pat_uniform(), 0)->Some_0
                        + 2],
                    DescriptorData {
                        size: 0,
                        binding: descriptor_binding(words(lines[index]))->Some_0,
                        value: if word == word_color() {
                            1
                        } else if word == word_depth() {
                            2
                        } else if word == word_cubemap_color() {
                            3
                        } else {
                            4
                        },
                    },
                ),
            ),
        ),
{
    assert forall|i: int| 0 <= i < word.len() implies !decoration(#[trigger] word[i]) by {}
    lemma_annotation_of(lines[index - 1], before, word, after);
    assert(ascii_ci_eq(word, word));
    assert(!lowers_to(word_depth()[0], word_color()[0]));
    assert(!lowers_to(word_cubemap_depth()[8], word_cubemap_color()[8]));
    if word == word_depth() {
        assert(!ascii_ci_eq(word, word_color()));
    }
    if word == word_cubemap_depth() {
        assert(!ascii_ci_eq(word, word_cubemap_color()));
    }
}

/// A uniform block declaration whose annotation line above holds a decimal number between
/// slashes, spaces and carriage returns (such as `// 64`, `//64\r` or `64`) is read with that
/// number as its size, its binding and the word after `uniform` as its name.
pub proof fn lemma_block_size_from_annotation(
    lines: Seq<Seq<char>>,
    index: int,
    before: Seq<char>,
    digits: Seq<char>,
    after: Seq<char>,
)
    requires
        1 <= index < lines.len(),
        !skipped_line(lines[index]),
        block_line(lines[index]),
        find_word_from(words(lines[index]), pat_uniform(), 0) is Some,
        find_word_from(words(lines[index]), pat_uniform(), 0)->Some_0 + 1 < words(lines[index]).len(),
        descriptor_binding(words(lines[index])) is Some,
        lines[index - 1] == before + digits + after,
        forall|i: int| 0 <= i < before.len() ==> decoration(#[trigger] before[i]),
        forall|i: int| 0 <= i < after.len() ==> decoration(#[trigger] after[i]),
        digits.len() > 0,
        all_digits(digits),
        digits_value(digits) <= u32::MAX,
    ensures
        line_entry(lines, index) == Some(
            Some(
                (
                    words(lines[index])[find_word_from(words(lines[index]), pat_uniform(), 0)->Some_0
                        + 1],
                    DescriptorData {
                        size: digits_value(digits) as u32,
                        binding: descriptor_binding(words(lines[index]))->Some_0,
                        value: 0,
                    },
                ),
            ),
        ),
{
    assert forall|i: int| 0 <= i < digits.len() implies !decoration(#[trigger] digits[i]) by {
        assert(is_digit(digits[i]));
    }
    lemma_annotation_of(lines[index - 1], before, digits, after);
    assert(is_digit(digits[0]));
    assert(parse_u32(digits) == Some(digits_value(digits) as u32));
}

/// The entries that the cleaned lines from `i` on add, in order; `None` if one is rejected.
pub open spec fn entries_from(lines: Seq<Seq<char>>, i: int) -> Option<
    Seq<(Seq<char>, DescriptorData)>,
>
    decreases lines.len() - i,
{
    if i < 0 || i >= lines.len() {
        Some(Seq::empty())
    } else {
        match (line_entry(lines, i), entries_from(lines, i + 1)) {
            (Some(e), Some(rest)) => Some(
                match e {
                    Some(kv) => seq![kv] + rest,
                    None => rest,
                },
            ),
            _ => None,
        }
    }
}

/// The lines of a shader source (split at `\n`) with every `;` taken out.
pub open spec fn cleaned_lines(text: Seq<char>) -> Seq<Seq<char>> {
    split_on(text, '\n').map_values(|l: Seq<char>| strip_char(l, ';'))
}

/// The entries that a shader source adds, in order.
pub open spec fn source_entries(text: Seq<char>) -> Option<Seq<(Seq<char>, DescriptorData)>> {
    entries_from(cleaned_lines(text), 0)
}

/// The entries of the vertex source, then those of the fragment source.
pub open spec fn shader_entries(vert: Seq<char>, frag: Seq<char>) -> Option<
    Seq<(Seq<char>, DescriptorData)>,
> {
    match (source_entries(vert), source_entries(frag)) {
        (Some(a), Some(b)) => Some(a + b),
        _ => None,
    }
}

/// A table after the entries were set one after another.
pub open spec fn apply_entries(
    m: Map<Seq<char>, DescriptorData>,
    es: Seq<(Seq<char>, DescriptorData)>,
) -> Map<Seq<char>, DescriptorData>
    decreases es.len(),
{
    if es.len() == 0 {
        m
    } else {
        apply_entries(m, es.drop_last()).insert(es.last().0, es.last().1)
    }
}

/// Reads the uniform declarations of a vertex and a fragment shader into a table from
/// uniform name to its size, binding and image kind.
pub struct Parser {
    descriptor_data: NamedTable<DescriptorData>,
}

fn lit_line_comment() -> (v: Vec<char>)
    ensures
        v@ == pat_line_comment(),
{
    vec!['/', '/']
}

fn lit_block_end() -> (v: Vec<char>)
    ensures
        v@ == pat_block_end(),
{
    vec!['*', '/']
}

fn lit_block_start() -> (v: Vec<char>)
    ensures
        v@ == pat_block_start(),
{
    vec!['/', '*']
}

fn lit_uniform() -> (v: Vec<char>)
    ensures
        v@ == pat_uniform(),
{
    vec!['u', 'n', 'i', 'f', 'o', 'r', 'm']
}

fn lit_push_constant() -> (v: Vec<char>)
    ensures
        v@ == pat_push_constant(),
{
    vec!['p', 'u', 's', 'h', '_', 'c', 'o', 'n', 's', 't', 'a', 'n', 't']
}

fn lit_sampler_2d() -> (v: Vec<char>)
    ensures
        v@ == pat_sampler_2d(),
{
    vec!['s', 'a', 'm', 'p', 'l', 'e', 'r', '2', 'D']
}

fn lit_sampler_cube() -> (v: Vec<char>)
    ensures
        v@ == pat_sampler_cube(),
{
    vec!['s', 'a', 'm', 'p', 'l', 'e', 'r', 'C', 'u', 'b', 'e']
}

fn lit_binding() -> (v: Vec<char>)
    ensures
        v@ == pat_binding(),
{
    vec!['b', 'i', 'n', 'd', 'i', 'n', 'g']
}

fn lit_color() -> (v: Vec<char>)
    ensures
        v@ == word_color(),
        lower_word(v@),
{
    vec!['c', 'o', 'l', 'o', 'r']
}

fn lit_depth() -> (v: Vec<char>)
    ensures
        v@ == word_depth(),
        lower_word(v@),
{
    vec!['d', 'e', 'p', 't', 'h']
}

fn lit_cubemap_color() -> (v: Vec<char>)
    ensures
        v@ == word_cubemap_color(),
        lower_word(v@),
{
    vec!['c', 'u', 'b', 'e', 'm', 'a', 'p', '-', 'c', 'o', 'l', 'o', 'r']
}

fn lit_cubemap_depth() -> (v: Vec<char>)
    ensures
        v@ == word_cubemap_depth(),
        lower_word(v@),
{
    vec!['c', 'u', 'b', 'e', 'm', 'a', 'p', '-', 'd', 'e', 'p', 't', 'h']
}

/// The image kind that an annotation names.
fn image_kind_of(t: &Vec<char>) -> (k: u32)
    ensures
        k == image_kind(t@),
{
    if equals_ignoring_ascii_case(t, &lit_color()) {
        1
    } else if equals_ignoring_ascii_case(t, &lit_depth()) {
        2
    } else if equals_ignoring_ascii_case(t, &lit_cubemap_color()) {
        3
    } else if equals_ignoring_ascii_case(t, &lit_cubemap_depth()) {
        4
    } else {
        1
    }
}

/// The first position of the word `w`.
fn find_word(ws: &Vec<Vec<char>>, w: &Vec<char>) -> (r: Option<usize>)
    ensures
        match r {
            Some(k) => find_word_from(views(ws@), w@, 0) == Some(k as int),
            None => find_word_from(views(ws@), w@, 0) is None,
        },
{
    let mut i: usize = 0;
    while i < ws.len()
        invariant
            i <= ws.len(),
            find_word_from(views(ws@), w@, 0) == find_word_from(views(ws@), w@, i as int),
        decreases ws.len() - i,
    {
        if same_chars(&ws[i], w) {
            return Some(i);
        }
        i = i + 1;
    }
    None
}

/// Tells whether the word `w` is among `ws`.
fn has_word(ws: &Vec<Vec<char>>, w: &Vec<char>) -> (r: bool)
    ensures
        r == views(ws@).contains(w@),
{
    let mut i: usize = 0;
    while i < ws.len()
        invariant
            i <= ws.len(),
            forall|j: int| 0 <= j < i ==> views(ws@)[j] != w@,
        decreases ws.len() - i,
    {
        if same_chars(&ws[i], w) {
            assert(views(ws@)[i as int] == w@);
            return true;
        }
        i = i + 1;
    }
    false
}

/// Reads the binding of a declaration given by its words.
fn binding_of(ws: &Vec<Vec<char>>) -> (r: Option<u32>)
    ensures
        r == descriptor_binding(views(ws@)),
{
    let line = join_with_spaces(ws);
    let p = match find_char(&line, '(') {
        Some(p) => p,
        None => {
            return None;
        },
    };
    let q = match find_char(&line, ')') {
        Some(q) => q,
        None => {
            return None;
        },
    };
    if q <= p {
        return None;
    }
    let mut inner: Vec<char> = Vec::new();
    let mut j: usize = p + 1;
    while j < q
        invariant
            p + 1 <= j <= q,
            q <= line@.len(),
            inner@ == line@.subrange(p + 1, j as int),
        decreases q - j,
    {
        inner.push(line[j]);
        j = j + 1;
        assert(inner@ =~= line@.subrange(p + 1, j as int));
    }
    let items = split_chars(&inner, ',');
    let binding = lit_binding();
    assert(descriptor_binding(views(ws@)) == binding_in_items(views(items@), 0));
    let mut i: usize = 0;
    while i < items.len()
        invariant
            i <= items.len(),
            descriptor_binding(views(ws@)) == binding_in_items(views(items@), 0),
            binding@ == pat_binding(),
            binding_in_items(views(items@), 0) == binding_in_items(views(items@), i as int),
        decreases items.len() - i,
    {
        let item_words = split_words(&items[i]);
        assert(views(items@)[i as int] == items@[i as int]@);
        if has_word(&item_words, &binding) {
            assert(views(item_words@).len() == item_words@.len());
            if item_words.len() < 3 {
                return None;
            }
            assert(views(item_words@)[2] == item_words@[2]@);
            return parse_decimal_u32(&item_words[2]);
        }
        i = i + 1;
    }
    Some(0)
}

/// What one cleaned line adds to the table; `None` for a line that the format rejects.
fn line_entry_of(lines: &Vec<Vec<char>>, index: usize) -> (r: Option<
    Option<(Vec<char>, DescriptorData)>,
>)
    requires
        index < lines@.len(),
    ensures
        match r {
            None => line_entry(views(lines@), index as int) is None,
            Some(None) => line_entry(views(lines@), index as int) == Some(
                None::<(Seq<char>, DescriptorData)>,
            ),
            Some(Some((name, data))) => line_entry(views(lines@), index as int) == Some(
                Some((name@, data)),
            ),
        },
{
    let line = &lines[index];
    if is_all_space(line) || contains_pattern(line, &lit_line_comment()) || contains_pattern(
        line,
        &lit_block_end(),
    ) || contains_pattern(line, &lit_block_start()) {
        return Some(None);
    }
    let has_uniform = contains_pattern(line, &lit_uniform());
    let has_push = contains_pattern(line, &lit_push_constant());
    let has_2d = contains_pattern(line, &lit_sampler_2d());
    let has_cube = contains_pattern(line, &lit_sampler_cube());
    let ws = split_words(line);
    if has_uniform && !has_push && (has_2d || has_cube) {
        let k = match find_word(&ws, &lit_uniform()) {
            Some(k) => k,
            None => {
                return None;
            },
        };
        if index < 1 || k >= ws.len() || ws.len() - k <= 2 {
            return None;
        }
        let b = match binding_of(&ws) {
            Some(b) => b,
            None => {
                return None;
            },
        };
        let kind = image_kind_of(&remove_chars(&lines[index - 1], '/', ' ', '\r'));
        let name = ws[k + 2].clone();
        Some(Some((name, DescriptorData { size: 0, binding: b, value: kind })))
    } else if !has_2d && !has_cube && has_uniform && !has_push {
        let k = match find_word(&ws, &lit_uniform()) {
            Some(k) => k,
            None => {
                return None;
            },
        };
        if index < 1 || k >= ws.len() || ws.len() - k <= 1 {
            return None;
        }
        let size = match parse_decimal_u32(&remove_chars(&lines[index - 1], '/', ' ', '\r')) {
            Some(size) => size,
            None => {
                return None;
            },
        };
        let b = match binding_of(&ws) {
            Some(b) => b,
            None => {
                return None;
            },
        };
        let name = ws[k + 1].clone();
        Some(Some((name, DescriptorData { size, binding: b, value: 0 })))
    } else {
        Some(None)
    }
}

/// The cleaned lines of a source: split at `\n`, each without `;`.
fn cleaned_lines_of(text: &Vec<char>) -> (lines: Vec<Vec<char>>)
    ensures
        views(lines@) == cleaned_lines(text@),
{
    let pieces = split_chars(text, '\n');
    let mut lines: Vec<Vec<char>> = Vec::new();
    let mut i: usize = 0;
    while i < pieces.len()
        invariant
            i <= pieces.len(),
            lines@.len() == i,
            views(pieces@) == split_on(text@, '\n'),
            forall|j: int| 0 <= j < i ==> #[trigger] lines@[j]@ == strip_char(pieces@[j]@, ';'),
        decreases pieces.len() - i,
    {
        lines.push(remove_char(&pieces[i], ';'));
        i = i + 1;
    }
    assert(views(lines@) =~= cleaned_lines(text@));
    lines
}

/// The entries that a source adds, in order; `None` if a line is rejected.
fn source_entries_of(text: &str) -> (r: Option<Vec<(Vec<char>, DescriptorData)>>)
    ensures
        match r {
            Some(es) => source_entries(text@) == Some(entry_views(es@)),
            None => source_entries(text@) is None,
        },
{
    let chars = to_chars(text);
    let lines = cleaned_lines_of(&chars);
    let ghost ls = views(lines@);
    let mut acc: Vec<(Vec<char>, DescriptorData)> = Vec::new();
    let mut i: usize = 0;
    while i < lines.len()
        invariant
            i <= lines@.len(),
            ls == views(lines@),
            ls == cleaned_lines(text@),
            entries_from(ls, 0) == (match entries_from(ls, i as int) {
                Some(rest) => Some(entry_views(acc@) + rest),
                None => None,
            }),
        decreases lines@.len() - i,
    {
        let ghost before = entry_views(acc@);
        match line_entry_of(&lines, i) {
            None => {
                return None;
            },
            Some(None) => {},
            Some(Some(kv)) => {
                acc.push(kv);
                assert(entry_views(acc@) =~= before + seq![(kv.0@, kv.1)]);
            },
        }
        i = i + 1;
        proof {
            match entries_from(ls, i as int) {
                Some(rest) => {
                    assert(entry_views(acc@) + rest =~= before + (match line_entry(ls, i - 1) {
                        Some(Some(kv)) => seq![kv] + rest,
                        _ => rest,
                    }));
                },
                None => {},
            }
        }
    }
    assert(entry_views(acc@) + Seq::empty() =~= entry_views(acc@));
    Some(acc)
}

/// The names as character sequences, with their data.
pub open spec fn entry_views(es: Seq<(Vec<char>, DescriptorData)>) -> Seq<
    (Seq<char>, DescriptorData),
> {
    es.map_values(|e: (Vec<char>, DescriptorData)| (e.0@, e.1))
}

impl Parser {
    /// The table from uniform name to what was read of it.
    pub closed spec fn spec_table(&self) -> Map<Seq<char>, DescriptorData> {
        self.descriptor_data@
    }

    /// A parser with an empty table.
    pub fn new() -> (p: Self)
        ensures
            p.spec_table() == Map::<Seq<char>, DescriptorData>::empty(),
    {
        Parser { descriptor_data: NamedTable::new() }
    }

    /// Reads the uniform declarations of a vertex and a fragment shader source into the
    /// table: each sampler or uniform block declaration line, with the annotation line above
    /// it, sets one entry, vertex source first, a later entry of a name replacing an earlier.
    ///
    /// Sources that the format rejects are refused as a whole, by design: the result is false
    /// and the table stays as it was, where a reader that stops at the first bad line would
    /// leave a half-filled table. A source is rejected exactly when `source_entries` gives
    /// `None` for it (see `line_entry`): a declaration line that is the first line of its
    /// source, that lacks the word after `uniform` that names it, whose binding cannot be read
    /// between its parentheses, or (for a uniform block) whose annotation line above is not
    /// a decimal `u32` once `/`, spaces and carriage returns are taken out.
    pub fn parse_shader_sources(&mut self, vert: &str, frag: &str) -> (ok: bool)
        ensures
            ok == (shader_entries(vert@, frag@) is Some),
            ok ==> final(self).spec_table() == apply_entries(
                old(self).spec_table(),
                shader_entries(vert@, frag@)->Some_0,
            ),
            !ok ==> final(self).spec_table() == old(self).spec_table(),
    {
        let a = match source_entries_of(vert) {
            Some(a) => a,
            None => {
                return false;
            },
        };
        let b = match source_entries_of(frag) {
            Some(b) => b,
            None => {
                return false;
            },
        };
        let ghost all = entry_views(a@) + entry_views(b@);
        let ghost start = self.spec_table();
        let mut i: usize = 0;
        while i < a.len()
            invariant
                i <= a@.len(),
                all == entry_views(a@) + entry_views(b@),
                self.spec_table() == apply_entries(start, all.take(i as int)),
            decreases a@.len() - i,
        {
            let (name_chars, data) = (&a[i].0, a[i].1);
            let name = string_from_chars(name_chars);
            self.descriptor_data.insert(name, data);
            assert(all.take(i + 1).drop_last() =~= all.take(i as int));
            assert(all.take(i + 1).last() == all[i as int]);
            i = i + 1;
        }
        let mut j: usize = 0;
        while j < b.len()
            invariant
                j <= b@.len(),
                a@.len() + j <= all.len(),
                all == entry_views(a@) + entry_views(b@),
                self.spec_table() == apply_entries(start, all.take(a@.len() + j)),
            decreases b@.len() - j,
        {
            let (name_chars, data) = (&b[j].0, b[j].1);
            let name = string_from_chars(name_chars);
            self.descriptor_data.insert(name, data);
            assert(all.take(a@.len() + j + 1).drop_last() =~= all.take(a@.len() + j));
            assert(all.take(a@.len() + j + 1).last() == all[a@.len() + j]);
            j = j + 1;
        }
        assert(all.take(all.len() as int) =~= all);
        true
    }

    /// The binding of a declaration line given by its words, where the line has one (see
    /// `descriptor_binding`).
    pub fn get_descriptor_binding(vector: &Vec<&str>) -> (r: u32)
        requires
            descriptor_binding(vector@.map_values(|w: &str| w@)) is Some,
        ensures
            descriptor_binding(vector@.map_values(|w: &str| w@)) == Some(r),
    {
        let mut ws: Vec<Vec<char>> = Vec::new();
        let mut i: usize = 0;
        while i < vector.len()
            invariant
                i <= vector@.len(),
                views(ws@) == vector@.take(i as int).map_values(|w: &str| w@),
            decreases vector@.len() - i,
        {
            let ghost before = ws@;
            assert(views(before).len() == before.len());
            assert(before.len() == i);
            let w = to_chars(vector[i]);
            assert(w@ == vector@[i as int]@);
            ws.push(w);
            assert(ws@ == before.push(w));
            i = i + 1;
            assert forall|k: int| 0 <= k < i implies #[trigger] views(ws@)[k] == vector@.take(
                i as int,
            ).map_values(|w: &str| w@)[k] by {
                if k < i - 1 {
                    assert(ws@[k] == before[k]);
                    assert(views(before)[k] == vector@.take(i - 1).map_values(|w: &str| w@)[k]);
                }
            }
            assert(views(ws@) =~= vector@.take(i as int).map_values(|w: &str| w@));
        }
        assert(vector@.take(vector@.len() as int) =~= vector@);
        match binding_of(&ws) {
            Some(b) => b,
            None => {
                proof {
                    assert(false);
                }
                0
            },
        }
    }

    /// What was read of the uniform `name`, if any.
    pub fn get(&self, name: &str) -> (r: Option<DescriptorData>)
        ensures
            match r {
                Some(d) => self.spec_table().contains_key(name@) && self.spec_table()[name@] == d,
                None => !self.spec_table().contains_key(name@),
            },
    {
        let key = name.to_owned();
        match self.descriptor_data.get(&key) {
            Some(d) => Some(*d),
            None => None,
        }
    }

    /// The number of uniforms in the table.
    pub fn len(&self) -> (n: usize)
        ensures
            n == self.spec_table().dom().len(),
    {
        let entries = self.descriptor_data.entries();
        proof {
            crate::table::lemma_map_of_len(entries@);
        }
        self.descriptor_data.len()
    }

    /// The table's entries, in the order in which their names first came in.
    pub fn entries(&self) -> (r: &Vec<(String, DescriptorData)>)
        ensures
            crate::table::map_of(r@) == self.spec_table(),
            crate::table::unique_names(r@),
    {
        self.descriptor_data.entries()
    }
}

} // verus!
