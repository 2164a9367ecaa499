use vstd::prelude::*;

verus! {

/// A file as the archive stores it: its type byte, then its name and its content, both sealed.
pub type FileFrameView = (u8, Seq<u8>, Seq<u8>);

/// A directory as the archive stores it: its sealed name and its files.
pub type DirectoryFrameView = (Seq<u8>, Seq<FileFrameView>);

/// A file as the archive stores it.
pub struct FileFrame {
    pub type_byte: u8,
    pub name: Vec<u8>,
    pub content: Vec<u8>,
}

impl View for FileFrame {
    type V = FileFrameView;

    open spec fn view(&self) -> FileFrameView {
        (self.type_byte, self.name@, self.content@)
    }
}

/// A directory as the archive stores it.
pub struct DirectoryFrame {
    pub name: Vec<u8>,
    pub files: Vec<FileFrame>,
}

/// The views of file frames.
pub open spec fn file_frame_views(fs: Seq<FileFrame>) -> Seq<FileFrameView> {
    fs.map_values(|f: FileFrame| f@)
}

impl View for DirectoryFrame {
    type V = DirectoryFrameView;

    open spec fn view(&self) -> DirectoryFrameView {
        (self.name@, file_frame_views(self.files@))
    }
}

/// The views of directory frames.
pub open spec fn dir_frame_views(ds: Seq<DirectoryFrame>) -> Seq<DirectoryFrameView> {
    ds.map_values(|d: DirectoryFrame| d@)
}

/// The four little-endian bytes of `n`, as `u32::to_le_bytes` gives them.
pub open spec fn le32_bytes(n: u32) -> Seq<u8> {
    seq![
        (n & 0xff) as u8,
        ((n >> 8u32) & 0xff) as u8,
        ((n >> 16u32) & 0xff) as u8,
        ((n >> 24u32) & 0xff) as u8,
    ]
}

/// The little-endian `u32` in `b` at `i`, as `u32::from_le_bytes` reads it.
pub open spec fn le32_at(b: Seq<u8>, i: int) -> u32 {
    (b[i] as u32) | ((b[i + 1] as u32) << 8u32) | ((b[i + 2] as u32) << 16u32) | ((b[i + 3]
        as u32) << 24u32)
}

/// Reading back the bytes that `le32_bytes` writes gives the number.
pub proof fn lemma_le32_roundtrip(n: u32)
    ensures
        le32_at(le32_bytes(n), 0) == n,
{
    let b = le32_bytes(n);
    let b0 = b[0];
    let b1 = b[1];
    let b2 = b[2];
    let b3 = b[3];
    assert((b0 as u32) | ((b1 as u32) << 8u32) | ((b2 as u32) << 16u32) | ((b3 as u32) << 24u32)
        == n) by (bit_vector)
        requires
            b0 == (n & 0xff) as u8,
            b1 == ((n >> 8u32) & 0xff) as u8,
            b2 == ((n >> 16u32) & 0xff) as u8,
            b3 == ((n >> 24u32) & 0xff) as u8,
    ;
}

/// `count` files read from `b` at `i`: each is a type byte, the name length and the content
/// length (little-endian `u32`), then the name and the content. Gives the files and the
/// position after them, or `None` where the bytes run out.
pub open spec fn decode_files(b: Seq<u8>, i: int, count: nat) -> Option<(Seq<FileFrameView>, int)>
    decreases count,
{
    if count == 0 {
        Some((Seq::empty(), i))
    } else if i < 0 || i + 9 > b.len() {
        None
    } else {
        let name_len = le32_at(b, i + 1) as int;
        let content_len = le32_at(b, i + 5) as int;
        let j = i + 9;
        if j + name_len + content_len > b.len() {
            None
        } else {
            let f = (b[i], b.subrange(j, j + name_len), b.subrange(j + name_len, j + name_len + content_len));
            match decode_files(b, j + name_len + content_len, (count - 1) as nat) {
                Some((fs, k)) => Some((seq![f] + fs, k)),
                None => None,
            }
        }
    }
}

/// Reading files only moves forward.
pub proof fn lemma_decode_files_advances(b: Seq<u8>, i: int, count: nat)
    ensures
        decode_files(b, i, count) matches Some((fs, k)) ==> i <= k <= b.len() || (count == 0 && k
            == i),
    decreases count,
{
    if count > 0 && 0 <= i && i + 9 <= b.len() {
        let name_len = le32_at(b, i + 1) as int;
        let content_len = le32_at(b, i + 5) as int;
        lemma_decode_files_advances(b, i + 9 + name_len + content_len, (count - 1) as nat);
    }
}

/// The directories read from `b` at `i`: while four bytes or more are left, a directory is
/// its name length (little-endian `u32`), its name, its file count (little-endian `u32`) and
/// its files. Fewer than four bytes left end the archive; `None` where a directory is cut off.
pub open spec fn decode_dirs(b: Seq<u8>, i: int) -> Option<Seq<DirectoryFrameView>>
    decreases b.len() - i,
{
    if i < 0 || i + 4 > b.len() {
        Some(Seq::empty())
    } else {
        let name_len = le32_at(b, i) as int;
        let j = i + 4;
        if j + name_len + 4 > b.len() {
            None
        } else {
            let name = b.subrange(j, j + name_len);
            let count = le32_at(b, j + name_len) as nat;
            match decode_files(b, j + name_len + 4, count) {
                Some((fs, k)) => {
                    proof {
                        lemma_decode_files_advances(b, j + name_len + 4, count);
                    }
                    match decode_dirs(b, k) {
                        Some(rest) => Some(seq![(name, fs)] + rest),
                        None => None,
                    }
                },
                None => None,
            }
        }
    }
}

/// The directory frames that an archive holds, or `None` if it is cut off.
pub open spec fn decode_archive(b: Seq<u8>) -> Option<Seq<DirectoryFrameView>> {
    decode_dirs(b, 0)
}

/// The bytes of one file frame.
pub open spec fn encode_file(f: FileFrameView) -> Seq<u8> {
    seq![f.0] + le32_bytes(f.1.len() as u32) + le32_bytes(f.2.len() as u32) + f.1 + f.2
}

/// The bytes of file frames, one after another.
pub open spec fn encode_files(fs: Seq<FileFrameView>) -> Seq<u8>
    decreases fs.len(),
{
    if fs.len() == 0 {
        Seq::empty()
    } else {
        encode_file(fs[0]) + encode_files(fs.drop_first())
    }
}

/// The bytes of one directory frame.
pub open spec fn encode_dir(d: DirectoryFrameView) -> Seq<u8> {
    le32_bytes(d.0.len() as u32) + d.0 + le32_bytes(d.1.len() as u32) + encode_files(d.1)
}

/// The bytes of an archive: its directory frames one after another.
pub open spec fn encode_dirs(ds: Seq<DirectoryFrameView>) -> Seq<u8>
    decreases ds.len(),
{
    if ds.len() == 0 {
        Seq::empty()
    } else {
        encode_dir(ds[0]) + encode_dirs(ds.drop_first())
    }
}

/// Every length and count that the frames write fits in 32 bits.
pub open spec fn frames_fit(ds: Seq<DirectoryFrameView>) -> bool {
    forall|i: int|
        0 <= i < ds.len() ==> {
            &&& (#[trigger] ds[i]).0.len() <= u32::MAX
            &&& ds[i].1.len() <= u32::MAX
            &&& forall|j: int|
                0 <= j < ds[i].1.len() ==> (#[trigger] ds[i].1[j]).1.len() <= u32::MAX && ds[i].1[
                    j].2.len() <= u32::MAX
        }
}

proof fn lemma_decode_files_of_encoding(fs: Seq<FileFrameView>, pre: Seq<u8>, post: Seq<u8>)
    requires
        fs.len() <= u32::MAX,
        forall|j: int| 0 <= j < fs.len() ==> (#[trigger] fs[j]).1.len() <= u32::MAX && fs[j].2.len() <= u32::MAX,
    ensures
        decode_files(pre + encode_files(fs) + post, pre.len() as int, fs.len()) == Some(
            (fs, (pre.len() + encode_files(fs).len()) as int),
        ),
    decreases fs.len(),
{
    let b = pre + encode_files(fs) + post;
    if fs.len() > 0 {
        let f = fs[0];
        let rest = fs.drop_first();
        let e = encode_file(f);
        assert(encode_files(fs) == e + encode_files(rest));
        let i = pre.len() as int;
        lemma_le32_roundtrip(f.1.len() as u32);
        lemma_le32_roundtrip(f.2.len() as u32);
        assert(b[i] == f.0);
        assert(le32_at(b, i + 1) == le32_at(le32_bytes(f.1.len() as u32), 0)) by {
            assert(b.subrange(i + 1, i + 5) =~= le32_bytes(f.1.len() as u32));
            assert(b[i + 1] == le32_bytes(f.1.len() as u32)[0]);
            assert(b[i + 2] == le32_bytes(f.1.len() as u32)[1]);
            assert(b[i + 3] == le32_bytes(f.1.len() as u32)[2]);
            assert(b[i + 4] == le32_bytes(f.1.len() as u32)[3]);
        }
        assert(le32_at(b, i + 5) == le32_at(le32_bytes(f.2.len() as u32), 0)) by {
            assert(b[i + 5] == le32_bytes(f.2.len() as u32)[0]);
            assert(b[i + 6] == le32_bytes(f.2.len() as u32)[1]);
            assert(b[i + 7] == le32_bytes(f.2.len() as u32)[2]);
            assert(b[i + 8] == le32_bytes(f.2.len() as u32)[3]);
        }
        let j = i + 9;
        assert(b.subrange(j, j + f.1.len()) =~= f.1);
        assert(b.subrange(j + f.1.len(), j + f.1.len() + f.2.len()) =~= f.2);
        let pre2 = pre + e;
        assert(b =~= pre2 + encode_files(rest) + post);
        assert(rest.len() <= u32::MAX);
        assert forall|k: int| 0 <= k < rest.len() implies (#[trigger] rest[k]).1.len() <= u32::MAX
            && rest[k].2.len() <= u32::MAX by {
            assert(rest[k] == fs[k + 1]);
        }
        lemma_decode_files_of_encoding(rest, pre2, post);
        assert(seq![f] + rest =~= fs);
    } else {
        assert(encode_files(fs) =~= Seq::<u8>::empty());
    }
}

proof fn lemma_decode_dirs_of_encoding(ds: Seq<DirectoryFrameView>, pre: Seq<u8>)
    requires
        frames_fit(ds),
    ensures
        decode_dirs(pre + encode_dirs(ds), pre.len() as int) == Some(ds),
    decreases ds.len(),
{
    let b = pre + encode_dirs(ds);
    let i = pre.len() as int;
    if ds.len() == 0 {
        assert(b =~= pre);
    } else {
        let d = ds[0];
        let rest = ds.drop_first();
        assert(frames_fit(rest)) by {
            assert forall|k: int| 0 <= k < rest.len() implies {
                &&& (#[trigger] rest[k]).0.len() <= u32::MAX
                &&& rest[k].1.len() <= u32::MAX
                &&& forall|j: int|
                    0 <= j < rest[k].1.len() ==> (#[trigger] rest[k].1[j]).1.len() <= u32::MAX
                        && rest[k].1[j].2.len() <= u32::MAX
            } by {
                assert(rest[k] == ds[k + 1]);
            }
        }
        assert(d.0.len() <= u32::MAX && d.1.len() <= u32::MAX);
        let e = encode_dir(d);
        assert(encode_dirs(ds) == e + encode_dirs(rest));
        lemma_le32_roundtrip(d.0.len() as u32);
        lemma_le32_roundtrip(d.1.len() as u32);
        assert(le32_at(b, i) == le32_at(le32_bytes(d.0.len() as u32), 0)) by {
            assert(b[i] == le32_bytes(d.0.len() as u32)[0]);
            assert(b[i + 1] == le32_bytes(d.0.len() as u32)[1]);
            assert(b[i + 2] == le32_bytes(d.0.len() as u32)[2]);
            assert(b[i + 3] == le32_bytes(d.0.len() as u32)[3]);
        }
        let j = i + 4;
        let n = d.0.len() as int;
        assert(b.subrange(j, j + n) =~= d.0);
        assert(le32_at(b, j + n) == le32_at(le32_bytes(d.1.len() as u32), 0)) by {
            assert(b[j + n] == le32_bytes(d.1.len() as u32)[0]);
            assert(b[j + n + 1] == le32_bytes(d.1.len() as u32)[1]);
            assert(b[j + n + 2] == le32_bytes(d.1.len() as u32)[2]);
            assert(b[j + n + 3] == le32_bytes(d.1.len() as u32)[3]);
        }
        let pre_f = pre + le32_bytes(d.0.len() as u32) + d.0 + le32_bytes(d.1.len() as u32);
        assert(b =~= pre_f + encode_files(d.1) + encode_dirs(rest));
        assert(forall|k: int| 0 <= k < d.1.len() ==> (#[trigger] d.1[k]).1.len() <= u32::MAX
            && d.1[k].2.len() <= u32::MAX);
        lemma_decode_files_of_encoding(d.1, pre_f, encode_dirs(rest));
        let pre2 = pre + e;
        assert(pre_f + encode_files(d.1) =~= pre2);
        assert(b =~= pre2 + encode_dirs(rest));
        lemma_decode_dirs_of_encoding(rest, pre2);
        assert(seq![d] + rest =~= ds);
    }
}

/// Reading an archive back gives the frames that were written, when every length and count
/// fits in 32 bits.
pub proof fn lemma_decode_encode(ds: Seq<DirectoryFrameView>)
    requires
        frames_fit(ds),
    ensures
        decode_archive(encode_dirs(ds)) == Some(ds),
{
    lemma_decode_dirs_of_encoding(ds, Seq::empty());
    assert(Seq::<u8>::empty() + encode_dirs(ds) =~= encode_dirs(ds));
}

proof fn lemma_encode_files_push(fs: Seq<FileFrameView>, f: FileFrameView)
    ensures
        encode_files(fs.push(f)) == encode_files(fs) + encode_file(f),
    decreases fs.len(),
{
    if fs.len() == 0 {
        assert(fs.push(f).drop_first() =~= Seq::<FileFrameView>::empty());
        assert(fs.push(f)[0] == f);
        assert(encode_files(Seq::<FileFrameView>::empty()) =~= Seq::<u8>::empty());
        assert(encode_files(fs.push(f)) =~= encode_file(f) + Seq::<u8>::empty());
        assert(encode_files(fs) =~= Seq::<u8>::empty());
    } else {
        assert(fs.push(f).drop_first() =~= fs.drop_first().push(f));
        lemma_encode_files_push(fs.drop_first(), f);
        assert(fs.push(f)[0] == fs[0]);
        assert(encode_files(fs.push(f)) =~= encode_files(fs) + encode_file(f));
    }
}

proof fn lemma_encode_dirs_push(ds: Seq<DirectoryFrameView>, d: DirectoryFrameView)
    ensures
        encode_dirs(ds.push(d)) == encode_dirs(ds) + encode_dir(d),
    decreases ds.len(),
{
    if ds.len() == 0 {
        assert(ds.push(d).drop_first() =~= Seq::<DirectoryFrameView>::empty());
        assert(ds.push(d)[0] == d);
        assert(encode_dirs(Seq::<DirectoryFrameView>::empty()) =~= Seq::<u8>::empty());
        assert(encode_dirs(ds.push(d)) =~= encode_dir(d) + Seq::<u8>::empty());
        assert(encode_dirs(ds) =~= Seq::<u8>::empty());
    } else {
        assert(ds.push(d).drop_first() =~= ds.drop_first().push(d));
        lemma_encode_dirs_push(ds.drop_first(), d);
        assert(ds.push(d)[0] == ds[0]);
        assert(encode_dirs(ds.push(d)) =~= encode_dirs(ds) + encode_dir(d));
    }
}

/// Appends bytes.
fn append_bytes(out: &mut Vec<u8>, b: &[u8])
    ensures
        final(out)@ == old(out)@ + b@,
{
    let ghost start = out@;
    let mut i: usize = 0;
    while i < b.len()
        invariant
            i <= b@.len(),
            out@ == start + b@.take(i as int),
        decreases b@.len() - i,
    {
        out.push(b[i]);
        i = i + 1;
        assert(out@ =~= start + b@.take(i as int));
    }
    assert(b@.take(b@.len() as int) =~= b@);
}

/// Appends the four little-endian bytes of `n`.
fn append_le32(out: &mut Vec<u8>, n: u32)
    ensures
        final(out)@ == old(out)@ + le32_bytes(n),
{
    let ghost start = out@;
    out.push((n & 0xff) as u8);
    out.push(((n >> 8u32) & 0xff) as u8);
    out.push(((n >> 16u32) & 0xff) as u8);
    out.push(((n >> 24u32) & 0xff) as u8);
    assert(out@ =~= start + le32_bytes(n));
}

/// The bytes of one file frame.
fn encode_file_frame(out: &mut Vec<u8>, f: &FileFrame)
    ensures
        final(out)@ == old(out)@ + encode_file(f@),
{
    let ghost start = out@;
    out.push(f.type_byte);
    append_le32(out, f.name.len() as u32);
    append_le32(out, f.content.len() as u32);
    append_bytes(out, f.name.as_slice());
    append_bytes(out, f.content.as_slice());
    assert(out@ =~= start + encode_file(f@));
}

/// The bytes of an archive with the given directory frames, each length and count written as
/// a little-endian `u32` (cut to 32 bits, as an `as u32` cast does).
pub fn encode_frames(ds: &Vec<DirectoryFrame>) -> (b: Vec<u8>)
    ensures
        b@ == encode_dirs(dir_frame_views(ds@)),
{
    let mut out: Vec<u8> = Vec::new();
    let mut i: usize = 0;
    assert(dir_frame_views(ds@).take(0) =~= Seq::<DirectoryFrameView>::empty());
    while i < ds.len()
        invariant
            i <= ds@.len(),
            out@ == encode_dirs(dir_frame_views(ds@).take(i as int)),
        decreases ds@.len() - i,
    {
        let d = &ds[i];
        let ghost before = out@;
        append_le32(&mut out, d.name.len() as u32);
        append_bytes(&mut out, d.name.as_slice());
        append_le32(&mut out, d.files.len() as u32);
        let ghost mid = out@;
        let mut j: usize = 0;
        assert(file_frame_views(d.files@).take(0) =~= Seq::<FileFrameView>::empty());
        while j < d.files.len()
            invariant
                j <= d.files@.len(),
                out@ == mid + encode_files(file_frame_views(d.files@).take(j as int)),
            decreases d.files@.len() - j,
        {
            encode_file_frame(&mut out, &d.files[j]);
            proof {
                lemma_encode_files_push(file_frame_views(d.files@).take(j as int), d.files@[j as int]@);
                assert(file_frame_views(d.files@).take(j + 1) =~= file_frame_views(d.files@).take(
                    j as int,
                ).push(d.files@[j as int]@));
            }
            j = j + 1;
        }
        assert(file_frame_views(d.files@).take(d.files@.len() as int) =~= file_frame_views(d.files@));
        assert(out@ =~= before + encode_dir(d@));
        proof {
            lemma_encode_dirs_push(dir_frame_views(ds@).take(i as int), d@);
            assert(dir_frame_views(ds@).take(i + 1) =~= dir_frame_views(ds@).take(i as int).push(d@));
        }
        i = i + 1;
    }
    assert(dir_frame_views(ds@).take(ds@.len() as int) =~= dir_frame_views(ds@));
    out
}

/// The little-endian `u32` at `i`.
fn read_le32(b: &[u8], i: usize) -> (r: u32)
    requires
        i + 4 <= b@.len(),
    ensures
        r == le32_at(b@, i as int),
{
    (b[i] as u32) | ((b[i + 1] as u32) << 8u32) | ((b[i + 2] as u32) << 16u32) | ((b[i + 3]
        as u32) << 24u32)
}

/// The bytes from `from` to `to`.
fn copy_range(b: &[u8], from: usize, to: usize) -> (v: Vec<u8>)
    requires
        from <= to <= b@.len(),
    ensures
        v@ == b@.subrange(from as int, to as int),
{
    let mut v: Vec<u8> = Vec::new();
    let mut i: usize = from;
    while i < to
        invariant
            from <= i <= to,
            to <= b@.len(),
            v@ == b@.subrange(from as int, i as int),
        decreases to - i,
    {
        v.push(b[i]);
        i = i + 1;
        assert(v@ =~= b@.subrange(from as int, i as int));
    }
    v
}

/// Reads `count` file frames at `start`.
fn decode_file_frames(b: &[u8], start: usize, count: u32) -> (r: Option<(Vec<FileFrame>, usize)>)
    requires
        start <= b@.len(),
    ensures
        match r {
            Some((fs, k)) => decode_files(b@, start as int, count as nat) == Some(
                (file_frame_views(fs@), k as int),
            ) && k <= b@.len(),
            None => decode_files(b@, start as int, count as nat) is None,
        },
{
    let mut acc: Vec<FileFrame> = Vec::new();
    let mut i: usize = start;
    let mut n: u32 = count;
    while n > 0
        invariant
            i <= b@.len(),
            decode_files(b@, start as int, count as nat) == (match decode_files(
                b@,
                i as int,
                n as nat,
            ) {
                Some((rest, k)) => Some((file_frame_views(acc@) + rest, k)),
                None => None,
            }),
        decreases n,
    {
        if b.len() - i < 9 {
            return None;
        }
        let type_byte = b[i];
        let name_len = read_le32(b, i + 1) as usize;
        let content_len = read_le32(b, i + 5) as usize;
        let j = i + 9;
        if b.len() - j < name_len || b.len() - j - name_len < content_len {
            return None;
        }
        let name = copy_range(b, j, j + name_len);
        let content = copy_range(b, j + name_len, j + name_len + content_len);
        let ghost before = file_frame_views(acc@);
        let f = FileFrame { type_byte, name, content };
        acc.push(f);
        assert(file_frame_views(acc@) =~= before.push(f@));
        i = j + name_len + content_len;
        n = n - 1;
        proof {
            match decode_files(b@, i as int, n as nat) {
                Some((rest, k)) => {
                    assert(file_frame_views(acc@) + rest =~= before + (seq![f@] + rest));
                },
                None => {},
            }
        }
    }
    assert(file_frame_views(acc@) + Seq::<FileFrameView>::empty() =~= file_frame_views(acc@));
    Some((acc, i))
}

/// Reads the directory frames of an archive, as `decode_archive` describes; `None` where a
/// directory is cut off.
pub fn decode_frames(b: &[u8]) -> (r: Option<Vec<DirectoryFrame>>)
    ensures
        match r {
            Some(ds) => decode_archive(b@) == Some(dir_frame_views(ds@)),
            None => decode_archive(b@) is None,
        },
{
    let mut acc: Vec<DirectoryFrame> = Vec::new();
    let mut i: usize = 0;
    while b.len() - i >= 4
        invariant
            i <= b@.len(),
            decode_archive(b@) == (match decode_dirs(b@, i as int) {
                Some(rest) => Some(dir_frame_views(acc@) + rest),
                None => None,
            }),
        decreases b@.len() - i,
    {
        let name_len = read_le32(b, i) as usize;
        let j = i + 4;
        if b.len() - j < name_len || b.len() - j - name_len < 4 {
            return None;
        }
        let name = copy_range(b, j, j + name_len);
        let count = read_le32(b, j + name_len);
        let ghost old_i = i;
        match decode_file_frames(b, j + name_len + 4, count) {
            None => {
                return None;
            },
            Some((files, k)) => {
                proof {
                    lemma_decode_files_advances(b@, (j + name_len + 4) as int, count as nat);
                }
                let ghost before = dir_frame_views(acc@);
                let d = DirectoryFrame { name, files };
                acc.push(d);
                assert(dir_frame_views(acc@) =~= before.push(d@));
                i = k;
                proof {
                    match decode_dirs(b@, i as int) {
                        Some(rest) => {
                            assert(dir_frame_views(acc@) + rest =~= before + (seq![d@] + rest));
                        },
                        None => {},
                    }
                }
            },
        }
    }
    assert(dir_frame_views(acc@) + Seq::<DirectoryFrameView>::empty() =~= dir_frame_views(acc@));
    Some(acc)
}

} // verus!
