use vstd::prelude::*;

use std::collections::HashMap;

use crate::table::NamedTable;

verus! {

broadcast use {vstd::seq_lib::group_to_multiset_ensures, vstd::std_specs::hash::group_hash_axioms};

/// How many frames are recorded at once: each descriptor gets one buffer (and one image) per frame.
pub const MAX_FRAMES_IN_FLIGHT: usize = 2;

/// What a descriptor holds.
#[allow(non_camel_case_types)]
#[derive(PartialEq, Eq, Structural, Debug, Clone, Copy)]
pub enum CurValue {
    UNIFORM_BUFFER,
    COLOR_IMAGE,
    DEPTH_IMAGE,
    CUBEMAP_COLOR_IMAGE,
    CUBEMAP_DEPTH_IMAGE,
}

impl CurValue {
    /// The number that stands for the value: 0 to 4 in the order of the variants.
    pub open spec fn spec_number(self) -> u32 {
        match self {
            CurValue::UNIFORM_BUFFER => 0,
            CurValue::COLOR_IMAGE => 1,
            CurValue::DEPTH_IMAGE => 2,
            CurValue::CUBEMAP_COLOR_IMAGE => 3,
            CurValue::CUBEMAP_DEPTH_IMAGE => 4,
        }
    }

    /// The number that stands for the value.
    pub fn number(&self) -> (n: u32)
        ensures
            n == self.spec_number(),
    {
        match self {
            CurValue::UNIFORM_BUFFER => 0,
            CurValue::COLOR_IMAGE => 1,
            CurValue::DEPTH_IMAGE => 2,
            CurValue::CUBEMAP_COLOR_IMAGE => 3,
            CurValue::CUBEMAP_DEPTH_IMAGE => 4,
        }
    }

    /// The value that a number stands for; none above 4. Each value comes back from its number.
    pub fn from_number(n: u32) -> (r: Option<CurValue>)
        ensures
            match r {
                Some(v) => v.spec_number() == n,
                None => n > 4,
            },
            forall|v: CurValue| v.spec_number() == n ==> r == Some(v),
    {
        match n {
            0 => Some(CurValue::UNIFORM_BUFFER),
            1 => Some(CurValue::COLOR_IMAGE),
            2 => Some(CurValue::DEPTH_IMAGE),
            3 => Some(CurValue::CUBEMAP_COLOR_IMAGE),
            4 => Some(CurValue::CUBEMAP_DEPTH_IMAGE),
            _ => None,
        }
    }
}

/// The kind of a binding of the descriptor set layout.
#[allow(non_camel_case_types)]
#[derive(PartialEq, Eq, Structural, Debug, Clone, Copy)]
pub enum DescriptorKind {
    UNIFORM_BUFFER,
    COMBINED_IMAGE_SAMPLER,
}

/// A binding of the descriptor set layout, seen by all graphics stages.
#[derive(PartialEq, Eq, Structural, Debug, Clone, Copy)]
pub struct LayoutBinding {
    pub kind: DescriptorKind,
    pub count: u32,
}

/// What a buffer is made for.
#[allow(non_camel_case_types)]
#[derive(PartialEq, Eq, Structural, Debug, Clone, Copy)]
pub enum BufferUsage {
    UNIFORM_BUFFER,
    TRANSFER_SRC,
}

/// A host-visible buffer to be made: `instance_count` instances of `instance_size` bytes.
#[derive(PartialEq, Eq, Structural, Debug, Clone, Copy)]
pub struct BufferPlan {
    pub instance_size: u64,
    pub instance_count: u64,
    pub usage: BufferUsage,
}

/// The pixel format of an image.
#[allow(non_camel_case_types)]
#[derive(PartialEq, Eq, Structural, Debug, Clone, Copy)]
pub enum ImageFormat {
    R8G8B8A8_SRGB,
    D32_SFLOAT,
}

/// A device-local image to be made, with its view; a cubemap has six layers.
#[derive(PartialEq, Eq, Structural, Debug, Clone, Copy)]
pub struct ImagePlan {
    pub format: ImageFormat,
    pub width: u32,
    pub height: u32,
    pub cubemap: bool,
}

/// A descriptor: its binding, sizes and value, and the buffers and images made for it,
/// one of each per frame.
pub struct DescriptorInformation {
    pub binding: u32,
    pub buffer_sizes: (u64, u64),
    pub image_size: (u32, u32),
    pub value: CurValue,
    pub buffers: Vec<BufferPlan>,
    pub images: Vec<ImagePlan>,
}

/// The binding that the layout gets for a new descriptor.
pub open spec fn layout_binding_for(value: CurValue, value_capacity: Option<u32>) -> LayoutBinding {
    if value == CurValue::UNIFORM_BUFFER {
        LayoutBinding {
            kind: DescriptorKind::UNIFORM_BUFFER,
            count: match value_capacity {
                Some(c) => c,
                None => 1,
            },
        }
    } else {
        LayoutBinding { kind: DescriptorKind::COMBINED_IMAGE_SAMPLER, count: 1 }
    }
}

/// Whether the buffers and images of a descriptor can be made with `count` instances: the
/// sizes fit their integers, and a depth cubemap is not supported.
pub open spec fn can_build(d: DescriptorInformation, count: u64) -> bool {
    let w = d.image_size.0;
    let h = d.image_size.1;
    match d.value {
        CurValue::UNIFORM_BUFFER => d.buffer_sizes.0 * count <= u64::MAX,
        CurValue::COLOR_IMAGE => w * h * 4 <= u32::MAX,
        CurValue::DEPTH_IMAGE => w * h <= u32::MAX,
        CurValue::CUBEMAP_COLOR_IMAGE => w * h * 4 <= u32::MAX,
        CurValue::CUBEMAP_DEPTH_IMAGE => false,
    }
}

/// The buffer that each frame gets: the uniform buffer of `count` instances, or the staging
/// buffer of an image (four bytes a pixel in colour, one in depth, six layers in a cubemap).
pub open spec fn buffer_plan_for(d: DescriptorInformation, count: u64) -> BufferPlan {
    let w = d.image_size.0;
    let h = d.image_size.1;
    match d.value {
        CurValue::UNIFORM_BUFFER => BufferPlan {
            instance_size: d.buffer_sizes.0,
            instance_count: count,
            usage: BufferUsage::UNIFORM_BUFFER,
        },
        CurValue::DEPTH_IMAGE => BufferPlan {
            instance_size: (w * h) as u64,
            instance_count: 1,
            usage: BufferUsage::TRANSFER_SRC,
        },
        CurValue::CUBEMAP_COLOR_IMAGE => BufferPlan {
            instance_size: (w * h * 4) as u64,
            instance_count: 6,
            usage: BufferUsage::TRANSFER_SRC,
        },
        _ => BufferPlan {
            instance_size: (w * h * 4) as u64,
            instance_count: 1,
            usage: BufferUsage::TRANSFER_SRC,
        },
    }
}

/// The image that each frame gets, if the descriptor holds one.
pub open spec fn image_plan_for(d: DescriptorInformation) -> Option<ImagePlan> {
    let w = d.image_size.0;
    let h = d.image_size.1;
    match d.value {
        CurValue::UNIFORM_BUFFER => None,
        CurValue::DEPTH_IMAGE => Some(
            ImagePlan { format: ImageFormat::D32_SFLOAT, width: w, height: h, cubemap: false },
        ),
        CurValue::CUBEMAP_COLOR_IMAGE => Some(
            ImagePlan { format: ImageFormat::R8G8B8A8_SRGB, width: w, height: h, cubemap: true },
        ),
        _ => Some(
            ImagePlan { format: ImageFormat::R8G8B8A8_SRGB, width: w, height: h, cubemap: false },
        ),
    }
}

/// `n` copies of `x`.
pub open spec fn copies<T>(x: T, n: nat) -> Seq<T> {
    Seq::new(n, |i: int| x)
}

/// The images made over all frames.
pub open spec fn frame_images(d: DescriptorInformation) -> Seq<ImagePlan> {
    match image_plan_for(d) {
        Some(p) => copies(p, MAX_FRAMES_IN_FLIGHT as nat),
        None => Seq::empty(),
    }
}

/// The bytes a pixel takes in a staging buffer for an image of the format.
pub open spec fn staged_pixel_bytes(format: ImageFormat) -> int {
    match format {
        ImageFormat::R8G8B8A8_SRGB => 4,
        ImageFormat::D32_SFLOAT => 1,
    }
}

/// Each frame's staging buffer holds exactly the image it fills: instance size times instance
/// count is width times height times the bytes a pixel takes (four for an RGBA colour image)
/// times the layers (six for a cubemap, else one), and it is a transfer source; a uniform
/// buffer has no image and holds `count` instances of the descriptor's buffer size.
pub proof fn lemma_staging_buffer_fits_image(d: DescriptorInformation, count: u64)
    requires
        can_build(d, count),
    ensures
        image_plan_for(d) matches Some(p) ==> {
            &&& p.width == d.image_size.0 && p.height == d.image_size.1
            &&& buffer_plan_for(d, count).usage == BufferUsage::TRANSFER_SRC
            &&& buffer_plan_for(d, count).instance_size * buffer_plan_for(d, count).instance_count
                == p.width * p.height * staged_pixel_bytes(p.format) * (if p.cubemap {
                6int
            } else {
                1int
            })
        },
        image_plan_for(d) is None <==> d.value == CurValue::UNIFORM_BUFFER,
        image_plan_for(d) is None ==> buffer_plan_for(d, count) == (BufferPlan {
            instance_size: d.buffer_sizes.0,
            instance_count: count,
            usage: BufferUsage::UNIFORM_BUFFER,
        }),
        image_plan_for(d) matches Some(p) ==> (p.format == ImageFormat::D32_SFLOAT <==> d.value
            == CurValue::DEPTH_IMAGE),
{
    let w = d.image_size.0;
    let h = d.image_size.1;
    assert(0 <= w * h) by (nonlinear_arith);
    assert(w * h <= w * h * 4) by (nonlinear_arith);
}

/// The plans of one frame's buffer and image.
fn frame_plans(d: &DescriptorInformation, count: u64) -> (r: (BufferPlan, Option<ImagePlan>))
    requires
        can_build(*d, count),
    ensures
        r.0 == buffer_plan_for(*d, count),
        r.1 == image_plan_for(*d),
{
    let w = d.image_size.0;
    let h = d.image_size.1;
    match d.value {
        CurValue::UNIFORM_BUFFER => (
            BufferPlan {
                instance_size: d.buffer_sizes.0,
                instance_count: count,
                usage: BufferUsage::UNIFORM_BUFFER,
            },
            None,
        ),
        CurValue::COLOR_IMAGE => (
            BufferPlan {
                instance_size: (w * h * 4) as u64,
                instance_count: 1,
                usage: BufferUsage::TRANSFER_SRC,
            },
            Some(
                ImagePlan { format: ImageFormat::R8G8B8A8_SRGB, width: w, height: h, cubemap: false },
            ),
        ),
        CurValue::DEPTH_IMAGE => (
            BufferPlan {
                instance_size: (w * h) as u64,
                instance_count: 1,
                usage: BufferUsage::TRANSFER_SRC,
            },
            Some(ImagePlan { format: ImageFormat::D32_SFLOAT, width: w, height: h, cubemap: false }),
        ),
        _ => (
            BufferPlan {
                instance_size: (w * h * 4) as u64,
                instance_count: 6,
                usage: BufferUsage::TRANSFER_SRC,
            },
            Some(
                ImagePlan { format: ImageFormat::R8G8B8A8_SRGB, width: w, height: h, cubemap: true },
            ),
        ),
    }
}

/// Exchanges the elements at `i` and `j`.
fn swap_elements<T>(v: &mut Vec<T>, i: usize, j: usize)
    requires
        i < old(v)@.len(),
        j < old(v)@.len(),
    ensures
        final(v)@ == old(v)@.update(i as int, old(v)@[j as int]).update(j as int, old(v)@[i as int]),
{
    if i == j {
        assert(v@ =~= old(v)@.update(i as int, old(v)@[j as int]).update(j as int, old(v)@[i as int]));
        return ;
    }
    let (lo, hi) = if i < j {
        (i, j)
    } else {
        (j, i)
    };
    let ghost s = v@;
    let b = v.remove(hi);
    let a = v.remove(lo);
    v.insert(lo, b);
    v.insert(hi, a);
    assert(v@ =~= s.update(i as int, s[j as int]).update(j as int, s[i as int]));
}

/// The positions are in order of binding.
pub open spec fn sorted_by_binding(s: Seq<(u32, bool, String)>) -> bool {
    forall|p: int, q: int| 0 <= p < q < s.len() ==> (#[trigger] s[p]).0 <= (#[trigger] s[q]).0
}

proof fn lemma_swap_multiset<T>(s: Seq<T>, i: int, j: int)
    requires
        0 <= i < s.len(),
        0 <= j < s.len(),
    ensures
        s.update(i, s[j]).update(j, s[i]).to_multiset() == s.to_multiset(),
{
    vstd::seq_lib::lemma_multiset_commutative(s, Seq::<T>::empty());
    if i != j {
        let t = s.update(i, s[j]);
        let u = t.update(j, s[i]);
        assert(t.to_multiset() == s.to_multiset().remove(s[i]).insert(s[j]));
        assert(u.to_multiset() == t.to_multiset().remove(t[j]).insert(s[i]));
        assert(t[j] == s[j]);
        assert(u.to_multiset() =~= s.to_multiset());
    } else {
        assert(s.update(i, s[j]).update(j, s[i]) =~= s);
    }
}

/// Sorts the positions by binding with the double loop that exchanges `v[i]` and `v[j]`
/// whenever `v[i]`'s binding is below `v[j]`'s: afterwards the bindings ascend, and the
/// positions are those that were there.
pub fn sort_by_binding(v: &mut Vec<(u32, bool, String)>)
    ensures
        sorted_by_binding(final(v)@),
        final(v)@.to_multiset() == old(v)@.to_multiset(),
        final(v)@.len() == old(v)@.len(),
{
    let n = v.len();
    let mut i: usize = 0;
    while i < n
        invariant
            n == v@.len(),
            i <= n,
            v@.to_multiset() == old(v)@.to_multiset(),
            forall|p: int, q: int| 0 <= p < q < i ==> (#[trigger] v@[p]).0 <= (#[trigger] v@[q]).0,
        decreases n - i,
    {
        let mut j: usize = 0;
        while j < n
            invariant
                n == v@.len(),
                i < n,
                j <= n,
                v@.to_multiset() == old(v)@.to_multiset(),
                forall|p: int, q: int| 0 <= p < q < i ==> (#[trigger] v@[p]).0 <= (#[trigger] v@[q]).0,
                forall|k: int| 0 <= k < j ==> (#[trigger] v@[k]).0 <= v@[i as int].0,
            decreases n - j,
        {
            if v[i].0 < v[j].0 {
                let ghost s = v@;
                swap_elements(v, i, j);
                proof {
                    lemma_swap_multiset(s, i as int, j as int);
                    if j < i {
                        assert forall|p: int, q: int| 0 <= p < q < i implies (#[trigger] v@[p]).0
                            <= (#[trigger] v@[q]).0 by {
                            if p == j as int {
                                assert(v@[p] == s[i as int]);
                                assert(s[j as int].0 <= s[q].0);
                            } else if q == j as int {
                                assert(v@[q] == s[i as int]);
                                assert(s[p].0 <= s[i as int].0);
                            } else {
                                assert(v@[p] == s[p] && v@[q] == s[q]);
                            }
                        }
                    } else {
                        assert forall|p: int, q: int| 0 <= p < q < i implies (#[trigger] v@[p]).0
                            <= (#[trigger] v@[q]).0 by {
                            assert(v@[p] == s[p] && v@[q] == s[q]);
                        }
                    }
                    assert forall|k: int| 0 <= k < j + 1 implies (#[trigger] v@[k]).0
                        <= v@[i as int].0 by {
                        if k == j as int {
                            assert(v@[k] == s[i as int]);
                        } else if k != i as int {
                            assert(v@[k] == s[k]);
                        }
                    }
                }
            }
            j = j + 1;
        }
        assert forall|p: int, q: int| 0 <= p < q < i + 1 implies (#[trigger] v@[p]).0
            <= (#[trigger] v@[q]).0 by {
            if q == i as int {
                assert(v@[p].0 <= v@[i as int].0);
            }
        }
        i = i + 1;
    }
}


/// A position names a descriptor of the table, with its binding and whether it is a uniform buffer.
pub open spec fn position_matches(
    p: (u32, bool, String),
    table: Map<Seq<char>, DescriptorInformation>,
) -> bool {
    &&& table.contains_key(p.2@)
    &&& table[p.2@].binding == p.0
    &&& p.1 == (table[p.2@].value == CurValue::UNIFORM_BUFFER)
}

/// The bookkeeping of a shader's descriptors: the descriptors by label, the bindings of the
/// layout, and the positions of the descriptors in order of binding.
pub struct DescriptorManager {
    pub descriptor_table: NamedTable<DescriptorInformation>,
    pub layout_bindings: HashMap<u32, LayoutBinding>,
    pub descriptor_positions: Vec<(u32, bool, String)>,
}

impl DescriptorManager {
    /// The positions ascend by binding, and they are the descriptors of the table: each
    /// names one with its binding and kind, each descriptor is named, and there are as many
    /// positions as descriptors.
    pub open spec fn wf(&self) -> bool {
        let ps = self.descriptor_positions@;
        let table = self.descriptor_table@;
        &&& sorted_by_binding(ps)
        &&& ps.len() == self.descriptor_table.spec_entries().len()
        &&& forall|i: int| 0 <= i < ps.len() ==> position_matches(#[trigger] ps[i], table)
        &&& forall|k: Seq<char>|
            table.contains_key(k) ==> exists|i: int| 0 <= i < ps.len() && (#[trigger] ps[i]).2@ == k
        &&& forall|k: Seq<char>|
            #[trigger] table.contains_key(k) ==> self.layout_bindings@.contains_key(table[k].binding)
    }

    /// A manager without descriptors.
    pub fn new() -> (m: Self)
        ensures
            m.wf(),
            m.descriptor_table@ == Map::<Seq<char>, DescriptorInformation>::empty(),
            m.layout_bindings@ == Map::<u32, LayoutBinding>::empty(),
            m.descriptor_positions@.len() == 0,
    {
        DescriptorManager {
            descriptor_table: NamedTable::new(),
            layout_bindings: HashMap::new(),
            descriptor_positions: Vec::new(),
        }
    }

    /// Adds the descriptor `label` at `binding`, unless the label is taken: the table gets it
    /// with no buffers or images yet and a 64 by 64 image size, the layout gets its binding
    /// (a uniform buffer of `value_capacity` values, one by default, or one image sampler), and
    /// the positions get it and are sorted by binding again.
    pub fn add_new_descriptor(
        &mut self,
        label: String,
        binding: u32,
        value: CurValue,
        buffer_size: u64,
        value_capacity: Option<u32>,
    )
        requires
            old(self).wf(),
        ensures
            final(self).wf(),
            old(self).descriptor_table@.contains_key(label@) ==> {
                &&& final(self).descriptor_table@ == old(self).descriptor_table@
                &&& final(self).layout_bindings@ == old(self).layout_bindings@
                &&& final(self).descriptor_positions@ == old(self).descriptor_positions@
            },
            !old(self).descriptor_table@.contains_key(label@) ==> {
                let d = final(self).descriptor_table@[label@];
                &&& final(self).descriptor_table@ == old(self).descriptor_table@.insert(label@, d)
                &&& d.binding == binding
                &&& d.buffer_sizes == (buffer_size, 1u64)
                &&& d.image_size == (64u32, 64u32)
                &&& d.value == value
                &&& d.buffers@.len() == 0
                &&& d.images@.len() == 0
                &&& final(self).layout_bindings@ == old(self).layout_bindings@.insert(
                    binding,
                    layout_binding_for(value, value_capacity),
                )
                &&& final(self).descriptor_positions@.to_multiset() == old(
                    self,
                ).descriptor_positions@.push(
                    (binding, value == CurValue::UNIFORM_BUFFER, label),
                ).to_multiset()
            },
    {
        let count = match value_capacity {
            Some(c) => c,
            None => 1,
        };
        if self.descriptor_table.contains_key(&label) {
            return ;
        }
        let is_uniform = value == CurValue::UNIFORM_BUFFER;
        if is_uniform {
            self.layout_bindings.insert(
                binding,
                LayoutBinding { kind: DescriptorKind::UNIFORM_BUFFER, count },
            );
        } else {
            self.layout_bindings.insert(
                binding,
                LayoutBinding { kind: DescriptorKind::COMBINED_IMAGE_SAMPLER, count: 1 },
            );
        }
        let ghost old_ps = self.descriptor_positions@;
        let ghost old_table = self.descriptor_table@;
        let ghost old_len = self.descriptor_table.spec_entries().len();
        self.descriptor_table.insert(
            label.clone(),
            DescriptorInformation {
                binding,
                buffer_sizes: (buffer_size, 1),
                image_size: (64, 64),
                value,
                buffers: Vec::new(),
                images: Vec::new(),
            },
        );
        let n = self.descriptor_positions.len();
        if n == 0 || binding as usize >= n - 1 {
            self.descriptor_positions.push((binding, is_uniform, label));
        } else {
            self.descriptor_positions.insert(binding as usize, (binding, is_uniform, label));
        }
        let ghost new_p = (binding, is_uniform, label);
        assert(self.descriptor_positions@.to_multiset() == old_ps.push(new_p).to_multiset()) by {
            if !(n == 0 || binding as usize >= n - 1) {
                let b = binding as int;
                vstd::seq_lib::lemma_multiset_commutative(old_ps.take(b), old_ps.skip(b));
                vstd::seq_lib::lemma_multiset_commutative(old_ps.take(b).push(new_p), old_ps.skip(b));
                vstd::seq_lib::lemma_multiset_commutative(old_ps, seq![new_p]);
                assert(old_ps.take(b) + old_ps.skip(b) =~= old_ps);
                assert(self.descriptor_positions@ =~= old_ps.take(b).push(new_p) + old_ps.skip(b));
                assert(old_ps.push(new_p) =~= old_ps + seq![new_p]);
            }
        }
        let ghost mid_ps = self.descriptor_positions@;
        sort_by_binding(&mut self.descriptor_positions);
        proof {
            let ps = self.descriptor_positions@;
            let table = self.descriptor_table@;
            assert(table == old_table.insert(label@, table[label@]));
            assert(self.descriptor_table.spec_entries().len() == old_len + 1);
            assert forall|i: int| 0 <= i < ps.len() implies position_matches(#[trigger] ps[i], table) by {
                assert(ps.to_multiset().count(ps[i]) > 0);
                assert(old_ps.push(new_p).contains(ps[i]));
                let j = choose|j: int| 0 <= j < old_ps.push(new_p).len() && old_ps.push(new_p)[j] == ps[i];
                if j < old_ps.len() {
                    assert(position_matches(old_ps[j], old_table));
                    assert(old_ps[j].2@ != label@);
                }
            }
            assert forall|k: Seq<char>| table.contains_key(k) implies exists|i: int|
                0 <= i < ps.len() && (#[trigger] ps[i]).2@ == k by {
                let j = if k == label@ {
                    old_ps.len() as int
                } else {
                    choose|j: int| 0 <= j < old_ps.len() && (#[trigger] old_ps[j]).2@ == k
                };
                let q = old_ps.push(new_p)[j];
                assert(q.2@ == k);
                assert(old_ps.push(new_p).contains(q));
                assert(ps.to_multiset().count(q) > 0);
                assert(ps.contains(q));
            }
        }
    }

    /// Makes the buffers (and images) of the descriptor `label` for every frame, with
    /// `count` instances in a uniform buffer; the count is recorded as its second buffer size.
    pub fn build_descriptor(&mut self, label: &str, count: u64)
        requires
            old(self).wf(),
            old(self).descriptor_table@.contains_key(label@),
            can_build(old(self).descriptor_table@[label@], count),
        ensures
            final(self).wf(),
            ({
                let d0 = old(self).descriptor_table@[label@];
                let d = final(self).descriptor_table@[label@];
                &&& final(self).descriptor_table@ == old(self).descriptor_table@.insert(label@, d)
                &&& d.binding == d0.binding
                &&& d.image_size == d0.image_size
                &&& d.value == d0.value
                &&& d.buffer_sizes == (d0.buffer_sizes.0, count)
                &&& d.buffers@ == d0.buffers@ + copies(
                    buffer_plan_for(d0, count),
                    MAX_FRAMES_IN_FLIGHT as nat,
                )
                &&& d.images@ == d0.images@ + frame_images(d0)
            }),
            final(self).layout_bindings@ == old(self).layout_bindings@,
            final(self).descriptor_positions@ == old(self).descriptor_positions@,
    {
        let name = label.to_owned();
        let placeholder = DescriptorInformation {
            binding: 0,
            buffer_sizes: (0, 0),
            image_size: (0, 0),
            value: CurValue::UNIFORM_BUFFER,
            buffers: Vec::new(),
            images: Vec::new(),
        };
        let ghost old_len = self.descriptor_table.spec_entries().len();
        let mut d = self.descriptor_table.replace(&name, placeholder);
        let ghost d0 = d;
        d.buffer_sizes = (d.buffer_sizes.0, count);
        let (bp, ip) = frame_plans(&d, count);
        assert(bp == buffer_plan_for(d0, count) && ip == image_plan_for(d0));
        let mut i: usize = 0;
        while i < MAX_FRAMES_IN_FLIGHT
            invariant
                i <= MAX_FRAMES_IN_FLIGHT,
                d.binding == d0.binding,
                d.image_size == d0.image_size,
                d.value == d0.value,
                d.buffer_sizes == (d0.buffer_sizes.0, count),
                d.buffers@ == d0.buffers@ + copies(bp, i as nat),
                d.images@ == d0.images@ + match ip {
                    Some(p) => copies(p, i as nat),
                    None => Seq::<ImagePlan>::empty(),
                },
            decreases MAX_FRAMES_IN_FLIGHT - i,
        {
            d.buffers.push(bp);
            match ip {
                Some(p) => {
                    d.images.push(p);
                },
                None => {},
            }
            i = i + 1;
            assert(d.buffers@ =~= d0.buffers@ + copies(bp, i as nat));
            assert(d.images@ =~= d0.images@ + match ip {
                Some(p) => copies(p, i as nat),
                None => Seq::<ImagePlan>::empty(),
            });
        }
        assert(d.images@ =~= d0.images@ + frame_images(d0));
        self.descriptor_table.replace(&name, d);
        proof {
            assert(self.descriptor_table.spec_entries().len() == old_len);
            let table = self.descriptor_table@;
            assert(table == old(self).descriptor_table@.insert(label@, table[label@]));
            let ps = self.descriptor_positions@;
            assert forall|j: int| 0 <= j < ps.len() implies position_matches(#[trigger] ps[j], table) by {
                assert(position_matches(ps[j], old(self).descriptor_table@));
            }
            assert forall|k: Seq<char>| #[trigger] table.contains_key(k) implies self.layout_bindings@.contains_key(
                table[k].binding,
            ) by {
                assert(old(self).descriptor_table@.contains_key(k));
            }
            assert forall|k: Seq<char>| table.contains_key(k) implies exists|j: int|
                0 <= j < ps.len() && (#[trigger] ps[j]).2@ == k by {
                assert(old(self).descriptor_table@.contains_key(k));
            }
        }
    }

    /// Gives a uniform descriptor `value_count` instances: the layout binding's count (cut to
    /// 32 bits) and new buffers for every frame in place of the old ones. Other descriptors
    /// stay as they are.
    pub fn change_buffer_count(&mut self, label: &str, value_count: u64)
        requires
            old(self).wf(),
            old(self).descriptor_table@.contains_key(label@),
            old(self).descriptor_table@[label@].value == CurValue::UNIFORM_BUFFER
                ==> old(self).descriptor_table@[label@].buffer_sizes.0 * value_count <= u64::MAX,
        ensures
            final(self).wf(),
            final(self).descriptor_positions@ == old(self).descriptor_positions@,
            ({
                let d0 = old(self).descriptor_table@[label@];
                let d = final(self).descriptor_table@[label@];
                if d0.value == CurValue::UNIFORM_BUFFER {
                    &&& final(self).descriptor_table@ == old(self).descriptor_table@.insert(label@, d)
                    &&& d.binding == d0.binding
                    &&& d.image_size == d0.image_size
                    &&& d.value == d0.value
                    &&& d.buffer_sizes == (d0.buffer_sizes.0, value_count)
                    &&& d.buffers@ == copies(
                        buffer_plan_for(d0, value_count),
                        MAX_FRAMES_IN_FLIGHT as nat,
                    )
                    &&& d.images@ == d0.images@
                    &&& final(self).layout_bindings@ == old(self).layout_bindings@.insert(
                        d0.binding,
                        LayoutBinding {
                            kind: old(self).layout_bindings@[d0.binding].kind,
                            count: value_count as u32,
                        },
                    )
                } else {
                    &&& final(self).descriptor_table@ == old(self).descriptor_table@
                    &&& final(self).layout_bindings@ == old(self).layout_bindings@
                }
            }),
    {
        let name = label.to_owned();
        let (binding, value) = match self.descriptor_table.get(&name) {
            Some(d) => (d.binding, d.value),
            None => {
                proof {
                    assert(false);
                }
                return ;
            },
        };
        if value == CurValue::UNIFORM_BUFFER {
            let kind = match self.layout_bindings.get(&binding) {
                Some(b) => b.kind,
                None => {
                    proof {
                        assert(false);
                    }
                    return ;
                },
            };
            self.layout_bindings.insert(binding, LayoutBinding { kind, count: value_count as u32 });
            let placeholder = DescriptorInformation {
                binding: 0,
                buffer_sizes: (0, 0),
                image_size: (0, 0),
                value: CurValue::UNIFORM_BUFFER,
                buffers: Vec::new(),
                images: Vec::new(),
            };
            let ghost old_len = self.descriptor_table.spec_entries().len();
            let mut d = self.descriptor_table.replace(&name, placeholder);
            d.buffers.clear();
            self.descriptor_table.replace(&name, d);
            proof {
                assert(self.descriptor_table.spec_entries().len() == old_len);
                let table = self.descriptor_table@;
                assert(table == old(self).descriptor_table@.insert(label@, table[label@]));
                let ps = self.descriptor_positions@;
                assert forall|j: int| 0 <= j < ps.len() implies position_matches(
                    #[trigger] ps[j],
                    table,
                ) by {
                    assert(position_matches(ps[j], old(self).descriptor_table@));
                }
                assert forall|k: Seq<char>| #[trigger] table.contains_key(
                    k,
                ) implies self.layout_bindings@.contains_key(table[k].binding) by {
                    assert(old(self).descriptor_table@.contains_key(k));
                }
                assert forall|k: Seq<char>| table.contains_key(k) implies exists|j: int|
                    0 <= j < ps.len() && (#[trigger] ps[j]).2@ == k by {
                    assert(old(self).descriptor_table@.contains_key(k));
                }
            }
            self.build_descriptor(label, value_count);
            assert(copies(buffer_plan_for(old(self).descriptor_table@[label@], value_count), MAX_FRAMES_IN_FLIGHT as nat)
                =~= Seq::<BufferPlan>::empty() + copies(buffer_plan_for(old(self).descriptor_table@[label@], value_count), MAX_FRAMES_IN_FLIGHT as nat));
            assert(old(self).descriptor_table@[label@].images@ =~= old(self).descriptor_table@[label@].images@ + Seq::<ImagePlan>::empty());
        }
    }

    /// Sets the image size of `label` and makes its buffers and images again: an image
    /// descriptor drops its old ones first, a uniform one keeps them and gets one-instance
    /// buffers besides.
    pub fn change_image_size(&mut self, label: &str, width: u32, height: u32)
        requires
            old(self).wf(),
            old(self).descriptor_table@.contains_key(label@),
            ({
                let d0 = old(self).descriptor_table@[label@];
                &&& d0.value != CurValue::CUBEMAP_DEPTH_IMAGE
                &&& d0.value == CurValue::DEPTH_IMAGE ==> width * height <= u32::MAX
                &&& (d0.value == CurValue::COLOR_IMAGE || d0.value == CurValue::CUBEMAP_COLOR_IMAGE)
                    ==> width * height * 4 <= u32::MAX
            }),
        ensures
            final(self).wf(),
            final(self).descriptor_positions@ == old(self).descriptor_positions@,
            final(self).layout_bindings@ == old(self).layout_bindings@,
            ({
                let d0 = old(self).descriptor_table@[label@];
                let d = final(self).descriptor_table@[label@];
                &&& final(self).descriptor_table@ == old(self).descriptor_table@.insert(label@, d)
                &&& d.binding == d0.binding
                &&& d.image_size == (width, height)
                &&& d.value == d0.value
                &&& d.buffer_sizes == (d0.buffer_sizes.0, 1u64)
                &&& if d0.value == CurValue::UNIFORM_BUFFER {
                    &&& d.buffers@ == d0.buffers@ + copies(
                        buffer_plan_for(d0, 1),
                        MAX_FRAMES_IN_FLIGHT as nat,
                    )
                    &&& d.images@ == d0.images@
                } else {
                    &&& d.buffers@ == copies(buffer_plan_for(d, 1), MAX_FRAMES_IN_FLIGHT as nat)
                    &&& d.images@ == frame_images(d)
                }
            }),
    {
        let name = label.to_owned();
        let placeholder = DescriptorInformation {
            binding: 0,
            buffer_sizes: (0, 0),
            image_size: (0, 0),
            value: CurValue::UNIFORM_BUFFER,
            buffers: Vec::new(),
            images: Vec::new(),
        };
        let ghost old_len = self.descriptor_table.spec_entries().len();
        let mut d = self.descriptor_table.replace(&name, placeholder);
        let ghost d0 = d;
        d.image_size = (width, height);
        if d.value == CurValue::COLOR_IMAGE || d.value == CurValue::DEPTH_IMAGE || d.value
            == CurValue::CUBEMAP_COLOR_IMAGE {
            d.images.clear();
            d.buffers.clear();
        }
        let ghost d1 = d;
        self.descriptor_table.replace(&name, d);
        proof {
            assert(self.descriptor_table.spec_entries().len() == old_len);
            let table = self.descriptor_table@;
            assert(table == old(self).descriptor_table@.insert(label@, table[label@]));
            let ps = self.descriptor_positions@;
            assert forall|j: int| 0 <= j < ps.len() implies position_matches(#[trigger] ps[j], table) by {
                assert(position_matches(ps[j], old(self).descriptor_table@));
            }
            assert forall|k: Seq<char>| #[trigger] table.contains_key(k) implies self.layout_bindings@.contains_key(
                table[k].binding,
            ) by {
                assert(old(self).descriptor_table@.contains_key(k));
            }
            assert forall|k: Seq<char>| table.contains_key(k) implies exists|j: int|
                0 <= j < ps.len() && (#[trigger] ps[j]).2@ == k by {
                assert(old(self).descriptor_table@.contains_key(k));
            }
        }
        self.build_descriptor(label, 1);
        proof {
            let dd = self.descriptor_table@[label@];
            assert(buffer_plan_for(d1, 1) == buffer_plan_for(dd, 1));
            assert(image_plan_for(d1) == image_plan_for(dd));
            if d0.value == CurValue::UNIFORM_BUFFER {
                assert(buffer_plan_for(d1, 1) == buffer_plan_for(d0, 1));
                assert(dd.images@ =~= d0.images@);
            } else {
                assert(dd.buffers@ =~= copies(buffer_plan_for(dd, 1), MAX_FRAMES_IN_FLIGHT as nat));
                assert(dd.images@ =~= frame_images(dd));
            }
        }
    }

    /// Whether values of `value_size` bytes, `value_count` of them, would be written to the
    /// buffer of `label` for frame `cur_frame`: none when there is no such descriptor, and a
    /// write only when they fill the buffer exactly.
    pub fn change_buffer_value(
        &self,
        label: &str,
        cur_frame: u32,
        value_size: usize,
        value_count: usize,
    ) -> (r: Option<bool>)
        requires
            self.descriptor_table@.contains_key(label@) ==> cur_frame
                < self.descriptor_table@[label@].buffers@.len(),
            value_size * value_count <= usize::MAX,
        ensures
            !self.descriptor_table@.contains_key(label@) ==> r is None,
            self.descriptor_table@.contains_key(label@) ==> ({
                let b = self.descriptor_table@[label@].buffers@[cur_frame as int];
                r == Some(value_size * value_count == b.instance_size * b.instance_count)
            }),
    {
        let name = label.to_owned();
        match self.descriptor_table.get(&name) {
            Some(d) => {
                let b = d.buffers[cur_frame as usize];
                let max_size = (value_size * value_count) as u64;
                let a = b.instance_size as u128;
                let c = b.instance_count as u128;
                assert(a * c <= u128::MAX) by (nonlinear_arith)
                    requires
                        a <= u64::MAX,
                        c <= u64::MAX,
                ;
                let buffer_size = a * c;
                Some(max_size as u128 == buffer_size)
            },
            None => None,
        }
    }
}

} // verus!
