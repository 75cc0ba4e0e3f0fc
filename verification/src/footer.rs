//! The footer of a nutexb file and the mipmap tables that precede it.
//!
//! Multi-byte values are stored with the least significant byte first. The
//! footer takes the last 112 bytes of a file:
//!
//! | offset | size | field |
//! |---|---|---|
//! | 0 | 4 | the bytes `" XNT"` |
//! | 4 | 64 | name, ended by a zero byte and padded with zeros |
//! | 68 | 4 | width |
//! | 72 | 4 | height |
//! | 76 | 4 | depth |
//! | 80 | 4 | image format |
//! | 84 | 4 | `unk2` |
//! | 88 | 4 | mipmap count |
//! | 92 | 4 | `unk3` |
//! | 96 | 4 | layer count |
//! | 100 | 4 | data size |
//! | 104 | 4 | the bytes `" XET"` |
//! | 108 | 2 + 2 | version |
//!
//! Before the footer there is one table of 64 bytes for each array layer,
//! with room for the sizes of sixteen mipmaps.

use crate::format::NutexbFormat;
use crate::mipmaps::LayerMipmaps;
use vstd::prelude::*;

verus! {

/// The size of the footer in bytes.
pub const FOOTER_SIZE: usize = 112;

/// The size in bytes of the mipmap table of one layer.
pub const LAYER_MIPMAPS_SIZE: usize = 64;

/// The number of mipmap sizes that the table of a layer has room for.
pub const MAX_MIPMAPS: usize = 16;

/// The value of `unk3` for image data in the tiled layout.
pub const SWIZZLED: u32 = 0x1000;

/// Information about the image data.
#[derive(Debug, PartialEq, Eq)]
pub struct NutexbFooter {
    /// The name of the texture, which usually matches the file name without
    /// its extension like `"def_001_col"`. A file stores the bytes before the
    /// first zero byte, and no more than 63 of them.
    pub string: Vec<u8>,
    /// The width of the texture in pixels.
    pub width: u32,
    /// The height of the texture in pixels.
    pub height: u32,
    /// The depth of the texture in pixels or 1 for 2D textures.
    pub depth: u32,
    /// The format of the image data.
    pub image_format: NutexbFormat,
    /// A value of unknown meaning. It seems to depend on the kind of
    /// texture.
    pub unk2: u32,
    /// The number of mipmaps in the image data or 1 for no mipmapping.
    pub mipmap_count: u32,
    /// `0x1000` for nutexbs with swizzling and `0` otherwise
    pub unk3: u32,
    /// The number of texture layers in the image data. This is 6 for
    /// cubemaps and 1 otherwise.
    pub layer_count: u32,
    /// The size in bytes of the image data.
    pub data_size: u32,
    /// The major and minor version of the format.
    pub version: (u16, u16),
}

/// The footer as plain values.
pub struct FooterView {
    pub string: Seq<u8>,
    pub width: u32,
    pub height: u32,
    pub depth: u32,
    pub image_format: NutexbFormat,
    pub unk2: u32,
    pub mipmap_count: u32,
    pub unk3: u32,
    pub layer_count: u32,
    pub data_size: u32,
    pub version: (u16, u16),
}

impl View for NutexbFooter {
    type V = FooterView;

    open spec fn view(&self) -> FooterView {
        FooterView {
            string: self.string@,
            width: self.width,
            height: self.height,
            depth: self.depth,
            image_format: self.image_format,
            unk2: self.unk2,
            mipmap_count: self.mipmap_count,
            unk3: self.unk3,
            layer_count: self.layer_count,
            data_size: self.data_size,
            version: self.version,
        }
    }
}

impl Clone for NutexbFooter {
    fn clone(&self) -> (copy: Self)
        ensures
            copy@ == self@,
    {
        NutexbFooter {
            string: copy_bytes(self.string.as_slice()),
            width: self.width,
            height: self.height,
            depth: self.depth,
            image_format: self.image_format,
            unk2: self.unk2,
            mipmap_count: self.mipmap_count,
            unk3: self.unk3,
            layer_count: self.layer_count,
            data_size: self.data_size,
            version: (self.version.0, self.version.1),
        }
    }
}

/// A copy of `bytes`.
pub fn copy_bytes(bytes: &[u8]) -> (copy: Vec<u8>)
    ensures
        copy@ == bytes@,
{
    let mut copy: Vec<u8> = Vec::with_capacity(bytes.len());
    let mut i: usize = 0;
    while i < bytes.len()
        invariant
            i <= bytes@.len(),
            copy@ == bytes@.take(i as int),
        decreases bytes@.len() - i,
    {
        copy.push(bytes[i]);
        i = i + 1;
        assert(copy@ =~= bytes@.take(i as int));
    }
    assert(bytes@.take(bytes@.len() as int) =~= bytes@);
    copy
}

/// The bytes that open the footer.
pub open spec fn footer_magic() -> Seq<u8> {
    seq![0x20u8, 0x58u8, 0x4eu8, 0x54u8]
}

/// The bytes that stand before the version.
pub open spec fn version_magic() -> Seq<u8> {
    seq![0x20u8, 0x58u8, 0x45u8, 0x54u8]
}

/// The four bytes of a 32 bit value.
pub open spec fn u32_bytes(value: u32) -> Seq<u8> {
    seq![
        (value % 256) as u8,
        (value / 0x100 % 256) as u8,
        (value / 0x1_0000 % 256) as u8,
        (value / 0x100_0000) as u8,
    ]
}

/// The two bytes of a 16 bit value.
pub open spec fn u16_bytes(value: u16) -> Seq<u8> {
    seq![(value % 256) as u8, (value / 0x100) as u8]
}

/// The 32 bit value stored in the four bytes of `bytes` from `at` on.
pub open spec fn u32_at(bytes: Seq<u8>, at: int) -> u32 {
    (bytes[at] + bytes[at + 1] * 0x100 + bytes[at + 2] * 0x1_0000 + bytes[at + 3]
        * 0x100_0000) as u32
}

/// The 16 bit value stored in the two bytes of `bytes` from `at` on.
pub open spec fn u16_at(bytes: Seq<u8>, at: int) -> u16 {
    (bytes[at] + bytes[at + 1] * 0x100) as u16
}

/// The number of bytes of `bytes` before the first zero byte, or the length
/// of `bytes` if it holds none.
pub open spec fn terminated_len(bytes: Seq<u8>) -> int
    decreases bytes.len(),
{
    if bytes.len() == 0 || bytes[0] == 0 {
        0
    } else {
        1 + terminated_len(bytes.drop_first())
    }
}

/// The name as a file stores it: the bytes before the first zero byte, and
/// no more than 63 of them.
pub open spec fn stored_name(name: Seq<u8>) -> Seq<u8> {
    if terminated_len(name) <= 63 {
        name.take(terminated_len(name))
    } else {
        name.take(63)
    }
}

/// The name field of the footer: the stored name, then zeros up to 64 bytes.
pub open spec fn name_field(name: Seq<u8>) -> Seq<u8> {
    Seq::new(
        64,
        |i: int|
            if i < stored_name(name).len() {
                stored_name(name)[i]
            } else {
                0u8
            },
    )
}

/// The 112 bytes of a footer.
pub open spec fn footer_bytes(footer: FooterView) -> Seq<u8> {
    footer_magic() + name_field(footer.string) + u32_bytes(footer.width) + u32_bytes(
        footer.height,
    ) + u32_bytes(footer.depth) + u32_bytes(footer.image_format.spec_code()) + u32_bytes(
        footer.unk2,
    ) + u32_bytes(footer.mipmap_count) + u32_bytes(footer.unk3) + u32_bytes(footer.layer_count)
        + u32_bytes(footer.data_size) + version_magic() + u16_bytes(footer.version.0) + u16_bytes(
        footer.version.1,
    )
}

/// The 64 bytes of the mipmap table of one layer: the sizes that fit, then
/// zeros.
pub open spec fn table_bytes(sizes: Seq<u32>) -> Seq<u8> {
    Seq::new(
        64,
        |i: int|
            if i / 4 < sizes.len() {
                u32_bytes(sizes[i / 4])[i % 4]
            } else {
                0u8
            },
    )
}

/// The mipmap tables of all layers, one after another.
pub open spec fn tables_bytes(tables: Seq<Seq<u32>>) -> Seq<u8> {
    Seq::new(64 * tables.len(), |i: int| table_bytes(tables[i / 64])[i % 64])
}

/// Whether 112 bytes have the shape of a footer: both markers are in place
/// and the name ends within its field.
pub open spec fn is_footer(record: Seq<u8>) -> bool {
    &&& record.len() == 112
    &&& record.subrange(0, 4) == footer_magic()
    &&& record.subrange(104, 108) == version_magic()
    &&& terminated_len(record.subrange(4, 68)) < 64
}

/// The footer that 112 bytes stand for, given the image format that their
/// format value stands for.
pub open spec fn footer_of(record: Seq<u8>, image_format: NutexbFormat) -> FooterView {
    FooterView {
        string: record.subrange(4, 68).take(terminated_len(record.subrange(4, 68))),
        width: u32_at(record, 68),
        height: u32_at(record, 72),
        depth: u32_at(record, 76),
        image_format,
        unk2: u32_at(record, 84),
        mipmap_count: u32_at(record, 88),
        unk3: u32_at(record, 92),
        layer_count: u32_at(record, 96),
        data_size: u32_at(record, 100),
        version: (u16_at(record, 108), u16_at(record, 110)),
    }
}

/// The number of sizes read from the table of a layer: the number of
/// mipmaps, or as many as a table has room for.
pub open spec fn table_len(mipmap_count: u32) -> int {
    if mipmap_count <= 16 {
        mipmap_count as int
    } else {
        16
    }
}

/// The mipmap sizes that the 64 bytes of a table stand for.
pub open spec fn table_of(record: Seq<u8>, mipmap_count: u32) -> Seq<u32> {
    Seq::new(table_len(mipmap_count) as nat, |mip: int| u32_at(record, 4 * mip))
}

/// Reading the bytes of a value gives the value.
pub proof fn lemma_u32_round_trip(value: u32)
    ensures
        u32_bytes(value).len() == 4,
        u32_at(u32_bytes(value), 0) == value,
{
}

/// Reading the bytes of a value gives the value.
pub proof fn lemma_u16_round_trip(value: u16)
    ensures
        u16_bytes(value).len() == 2,
        u16_at(u16_bytes(value), 0) == value,
{
}

/// The bytes counted by [`terminated_len`] are not zero, and the byte after
/// them is zero unless they reach the end.
pub proof fn lemma_terminated_len(bytes: Seq<u8>)
    ensures
        0 <= terminated_len(bytes) <= bytes.len(),
        forall|i: int| 0 <= i < terminated_len(bytes) ==> bytes[i] != 0,
        terminated_len(bytes) < bytes.len() ==> bytes[terminated_len(bytes)] == 0,
    decreases bytes.len(),
{
    if bytes.len() > 0 && bytes[0] != 0 {
        let rest = bytes.drop_first();
        lemma_terminated_len(rest);
        assert forall|i: int| 0 <= i < terminated_len(bytes) implies bytes[i] != 0 by {
            if i > 0 {
                assert(bytes[i] == rest[i - 1]);
            }
        }
        if terminated_len(bytes) < bytes.len() {
            assert(bytes[terminated_len(bytes)] == rest[terminated_len(rest)]);
        }
    }
}

/// The first zero byte of a sequence is where [`terminated_len`] says.
pub proof fn lemma_terminated_at(bytes: Seq<u8>, end: int)
    requires
        0 <= end <= bytes.len(),
        forall|i: int| 0 <= i < end ==> bytes[i] != 0,
        end < bytes.len() ==> bytes[end] == 0,
    ensures
        terminated_len(bytes) == end,
{
    lemma_terminated_len(bytes);
    let found = terminated_len(bytes);
    if found < end {
        assert(bytes[found] == 0);
    } else if found > end {
        assert(bytes[end] != 0);
    }
}

/// A stored name holds no zero byte and at most 63 bytes, and storing it
/// again changes nothing.
pub proof fn lemma_stored_name(name: Seq<u8>)
    ensures
        stored_name(name).len() <= 63,
        stored_name(name).len() <= name.len(),
        forall|i: int| 0 <= i < stored_name(name).len() ==> stored_name(name)[i] != 0,
        stored_name(stored_name(name)) == stored_name(name),
        stored_name(name) == name.take(stored_name(name).len() as int),
{
    lemma_terminated_len(name);
    let stored = stored_name(name);
    lemma_terminated_at(stored, stored.len() as int);
    assert(stored.take(stored.len() as int) =~= stored);
}

/// A name of at most 63 bytes without a zero byte is stored as it is. Of a
/// longer name without a zero byte the first 63 bytes are stored.
pub proof fn lemma_name_truncation(name: Seq<u8>)
    requires
        forall|i: int| 0 <= i < name.len() ==> name[i] != 0,
    ensures
        name.len() <= 63 ==> stored_name(name) == name,
        name.len() > 63 ==> stored_name(name) == name.take(63),
{
    lemma_terminated_at(name, name.len() as int);
    assert(name.take(name.len() as int) =~= name);
}

/// Reading the name field of a footer gives the stored name.
pub proof fn lemma_name_field(name: Seq<u8>)
    ensures
        name_field(name).len() == 64,
        terminated_len(name_field(name)) == stored_name(name).len(),
        terminated_len(name_field(name)) < 64,
        name_field(name).take(terminated_len(name_field(name))) == stored_name(name),
{
    lemma_stored_name(name);
    let stored = stored_name(name);
    let field = name_field(name);
    lemma_terminated_at(field, stored.len() as int);
    assert(field.take(stored.len() as int) =~= stored);
}

/// Errors while reading a nutexb file from bytes.
#[derive(Debug, Clone, Copy, PartialEq, Eq, Structural)]
pub enum ReadError {
    /// The bytes are too few for a footer and its mipmap tables, a marker of
    /// the footer is not in place, or the name does not end within its field.
    MalformedContainer,
    /// The footer names an image format that is not a [`NutexbFormat`].
    FormatUnsupported,
}

/// What 112 bytes stand for: a footer, or the reason why they are none.
pub open spec fn parse_footer(record: Seq<u8>) -> Result<FooterView, ReadError> {
    if !is_footer(record) {
        Err(ReadError::MalformedContainer)
    } else {
        match NutexbFormat::spec_from_code(u32_at(record, 80)) {
            Some(image_format) => Ok(footer_of(record, image_format)),
            None => Err(ReadError::FormatUnsupported),
        }
    }
}

/// The footer as a file stores it: with the name cut off where the file cuts
/// it off.
pub open spec fn stored_footer(footer: FooterView) -> FooterView {
    FooterView {
        string: stored_name(footer.string),
        width: footer.width,
        height: footer.height,
        depth: footer.depth,
        image_format: footer.image_format,
        unk2: footer.unk2,
        mipmap_count: footer.mipmap_count,
        unk3: footer.unk3,
        layer_count: footer.layer_count,
        data_size: footer.data_size,
        version: footer.version,
    }
}

/// Where each field of a footer lies in its bytes.
pub proof fn lemma_footer_fields(footer: FooterView)
    ensures
        footer_bytes(footer).len() == 112,
        footer_bytes(footer).subrange(0, 4) == footer_magic(),
        footer_bytes(footer).subrange(4, 68) == name_field(footer.string),
        u32_at(footer_bytes(footer), 68) == footer.width,
        u32_at(footer_bytes(footer), 72) == footer.height,
        u32_at(footer_bytes(footer), 76) == footer.depth,
        u32_at(footer_bytes(footer), 80) == footer.image_format.spec_code(),
        u32_at(footer_bytes(footer), 84) == footer.unk2,
        u32_at(footer_bytes(footer), 88) == footer.mipmap_count,
        u32_at(footer_bytes(footer), 92) == footer.unk3,
        u32_at(footer_bytes(footer), 96) == footer.layer_count,
        u32_at(footer_bytes(footer), 100) == footer.data_size,
        footer_bytes(footer).subrange(104, 108) == version_magic(),
        u16_at(footer_bytes(footer), 108) == footer.version.0,
        u16_at(footer_bytes(footer), 110) == footer.version.1,
{
    let bytes = footer_bytes(footer);
    lemma_name_field(footer.string);
    assert(bytes.len() == 112);
    assert(bytes.subrange(0, 4) =~= footer_magic());
    assert(bytes.subrange(4, 68) =~= name_field(footer.string));
    assert(bytes.subrange(104, 108) =~= version_magic());
    lemma_field_in_footer(bytes, 68, footer.width);
    lemma_field_in_footer(bytes, 72, footer.height);
    lemma_field_in_footer(bytes, 76, footer.depth);
    lemma_field_in_footer(bytes, 80, footer.image_format.spec_code());
    lemma_field_in_footer(bytes, 84, footer.unk2);
    lemma_field_in_footer(bytes, 88, footer.mipmap_count);
    lemma_field_in_footer(bytes, 92, footer.unk3);
    lemma_field_in_footer(bytes, 96, footer.layer_count);
    lemma_field_in_footer(bytes, 100, footer.data_size);
    assert(bytes.subrange(108, 110) =~= u16_bytes(footer.version.0));
    assert(bytes.subrange(110, 112) =~= u16_bytes(footer.version.1));
    lemma_u16_round_trip(footer.version.0);
    lemma_u16_round_trip(footer.version.1);
    assert(u16_at(bytes, 108) == u16_at(bytes.subrange(108, 110), 0));
    assert(u16_at(bytes, 110) == u16_at(bytes.subrange(110, 112), 0));
}

/// Four bytes that hold the bytes of a value hold that value.
proof fn lemma_field_in_footer(bytes: Seq<u8>, at: int, value: u32)
    requires
        0 <= at,
        at + 4 <= bytes.len(),
        bytes[at] == u32_bytes(value)[0],
        bytes[at + 1] == u32_bytes(value)[1],
        bytes[at + 2] == u32_bytes(value)[2],
        bytes[at + 3] == u32_bytes(value)[3],
    ensures
        u32_at(bytes, at) == value,
{
    lemma_u32_round_trip(value);
}

/// Reading the bytes of a footer gives the footer as a file stores it.
pub proof fn lemma_footer_round_trip(footer: FooterView)
    ensures
        parse_footer(footer_bytes(footer)) == Ok::<FooterView, ReadError>(stored_footer(footer)),
{
    let bytes = footer_bytes(footer);
    lemma_footer_fields(footer);
    lemma_name_field(footer.string);
    crate::format::lemma_format_code_round_trip(footer.image_format, footer.image_format);
    assert(is_footer(bytes));
}

/// Reading the table of a layer gives the sizes that were written, as long
/// as there is one for each mipmap and the table has room for them.
pub proof fn lemma_table_round_trip(sizes: Seq<u32>, mipmap_count: u32)
    requires
        sizes.len() == mipmap_count,
        mipmap_count <= 16,
    ensures
        table_bytes(sizes).len() == 64,
        table_of(table_bytes(sizes), mipmap_count) == sizes,
{
    let record = table_bytes(sizes);
    assert forall|mip: int| 0 <= mip < sizes.len() implies u32_at(record, 4 * mip) == sizes[mip] by {
        assert((4 * mip) / 4 == mip && (4 * mip + 1) / 4 == mip && (4 * mip + 2) / 4 == mip && (4
            * mip + 3) / 4 == mip);
        lemma_field_in_footer(record, 4 * mip, sizes[mip]);
    }
    assert(table_of(record, mipmap_count) =~= sizes);
}

/// Appends the four bytes of `value` to `out`.
pub fn write_u32(out: &mut Vec<u8>, value: u32)
    ensures
        final(out)@ == old(out)@ + u32_bytes(value),
{
    out.push((value % 256) as u8);
    out.push((value / 0x100 % 256) as u8);
    out.push((value / 0x1_0000 % 256) as u8);
    out.push((value / 0x100_0000) as u8);
    assert(out@ =~= old(out)@ + u32_bytes(value));
}

/// Appends the two bytes of `value` to `out`.
pub fn write_u16(out: &mut Vec<u8>, value: u16)
    ensures
        final(out)@ == old(out)@ + u16_bytes(value),
{
    out.push((value % 256) as u8);
    out.push((value / 0x100) as u8);
    assert(out@ =~= old(out)@ + u16_bytes(value));
}

/// The 32 bit value stored in the four bytes of `bytes` from `at` on.
pub fn read_u32(bytes: &[u8], at: usize) -> (value: u32)
    requires
        at + 4 <= bytes@.len(),
    ensures
        value == u32_at(bytes@, at as int),
{
    let b0: u32 = bytes[at] as u32;
    let b1: u32 = bytes[at + 1] as u32;
    let b2: u32 = bytes[at + 2] as u32;
    let b3: u32 = bytes[at + 3] as u32;
    b0 + b1 * 0x100 + b2 * 0x1_0000 + b3 * 0x100_0000
}

/// The 16 bit value stored in the two bytes of `bytes` from `at` on.
pub fn read_u16(bytes: &[u8], at: usize) -> (value: u16)
    requires
        at + 2 <= bytes@.len(),
    ensures
        value == u16_at(bytes@, at as int),
{
    let b0: u16 = bytes[at] as u16;
    let b1: u16 = bytes[at + 1] as u16;
    b0 + b1 * 0x100
}

/// The number of bytes of `name` that a file stores.
pub fn stored_name_len(name: &[u8]) -> (len: usize)
    ensures
        len == stored_name(name@).len(),
        len <= 63,
        len <= name@.len(),
{
    let mut len: usize = 0;
    while len < name.len() && len < 63 && name[len] != 0
        invariant
            len <= name@.len(),
            len <= 63,
            forall|i: int| 0 <= i < len ==> name@[i] != 0,
        decreases name@.len() - len,
    {
        len = len + 1;
    }
    proof {
        lemma_terminated_len(name@);
        let found = terminated_len(name@);
        if found < len {
            assert(name@[found] == 0);
        }
        if len < name@.len() && len < 63 {
            lemma_terminated_at(name@, len as int);
        }
    }
    len
}

/// Whether the four bytes of `bytes` from `at` on are the given ones.
fn has_bytes(bytes: &[u8], at: usize, b0: u8, b1: u8, b2: u8, b3: u8) -> (found: bool)
    requires
        at + 4 <= bytes@.len(),
    ensures
        found == (bytes@.subrange(at as int, at + 4) == seq![b0, b1, b2, b3]),
{
    let found = bytes[at] == b0 && bytes[at + 1] == b1 && bytes[at + 2] == b2 && bytes[at + 3]
        == b3;
    proof {
        let part = bytes@.subrange(at as int, at + 4);
        let wanted = seq![b0, b1, b2, b3];
        if found {
            assert(part =~= wanted);
        } else {
            assert(part[0] == bytes@[at as int] && part[1] == bytes@[at + 1] && part[2] == bytes@[at
                + 2] && part[3] == bytes@[at + 3]);
            assert(wanted[0] == b0 && wanted[1] == b1 && wanted[2] == b2 && wanted[3] == b3);
        }
    }
    found
}

impl NutexbFooter {
    /// Appends the 112 bytes of the footer to `out`.
    pub fn write(&self, out: &mut Vec<u8>)
        ensures
            final(out)@ == old(out)@ + footer_bytes(self@),
    {
        let ghost before = out@;
        out.push(0x20u8);
        out.push(0x58u8);
        out.push(0x4eu8);
        out.push(0x54u8);
        assert(out@ =~= before + footer_magic());
        let len: usize = stored_name_len(self.string.as_slice());
        let mut i: usize = 0;
        proof {
            lemma_stored_name(self.string@);
        }
        while i < 64
            invariant
                i <= 64,
                len == stored_name(self.string@).len(),
                len <= 63,
                stored_name(self.string@) == self.string@.take(len as int),
                len <= self.string@.len(),
                out@ == before + footer_magic() + name_field(self.string@).take(i as int),
            decreases 64 - i,
        {
            let byte: u8 = if i < len {
                self.string[i]
            } else {
                0u8
            };
            out.push(byte);
            i = i + 1;
            assert(out@ =~= before + footer_magic() + name_field(self.string@).take(i as int));
        }
        assert(name_field(self.string@).take(64) =~= name_field(self.string@));
        write_u32(out, self.width);
        write_u32(out, self.height);
        write_u32(out, self.depth);
        write_u32(out, self.image_format.code());
        write_u32(out, self.unk2);
        write_u32(out, self.mipmap_count);
        write_u32(out, self.unk3);
        write_u32(out, self.layer_count);
        write_u32(out, self.data_size);
        let ghost fields = out@;
        out.push(0x20u8);
        out.push(0x58u8);
        out.push(0x45u8);
        out.push(0x54u8);
        assert(out@ =~= fields + version_magic());
        write_u16(out, self.version.0);
        write_u16(out, self.version.1);
        assert(out@ =~= before + footer_bytes(self@));
    }

    /// The footer that the 112 bytes of `record` stand for.
    pub fn read(record: &[u8]) -> (result: Result<NutexbFooter, ReadError>)
        ensures
            match result {
                Ok(footer) => parse_footer(record@) == Ok::<FooterView, ReadError>(footer@),
                Err(error) => parse_footer(record@) == Err::<FooterView, ReadError>(error),
            },
    {
        if record.len() != FOOTER_SIZE {
            return Err(ReadError::MalformedContainer);
        }
        if !has_bytes(record, 0, 0x20u8, 0x58u8, 0x4eu8, 0x54u8) {
            return Err(ReadError::MalformedContainer);
        }
        if !has_bytes(record, 104, 0x20u8, 0x58u8, 0x45u8, 0x54u8) {
            return Err(ReadError::MalformedContainer);
        }
        let ghost field = record@.subrange(4, 68);
        let mut string: Vec<u8> = Vec::new();
        let mut len: usize = 0;
        while len < 64 && record[4 + len] != 0
            invariant
                len <= 64,
                record@.len() == 112,
                field == record@.subrange(4, 68),
                forall|i: int| 0 <= i < len ==> field[i] != 0,
                string@ == field.take(len as int),
            decreases 64 - len,
        {
            string.push(record[4 + len]);
            len = len + 1;
            assert(string@ =~= field.take(len as int));
        }
        proof {
            lemma_terminated_at(field, len as int);
        }
        if len == 64 {
            return Err(ReadError::MalformedContainer);
        }
        let image_format = match NutexbFormat::from_code(read_u32(record, 80)) {
            Some(image_format) => image_format,
            None => {
                return Err(ReadError::FormatUnsupported);
            },
        };
        Ok(
            NutexbFooter {
                string,
                width: read_u32(record, 68),
                height: read_u32(record, 72),
                depth: read_u32(record, 76),
                image_format,
                unk2: read_u32(record, 84),
                mipmap_count: read_u32(record, 88),
                unk3: read_u32(record, 92),
                layer_count: read_u32(record, 96),
                data_size: read_u32(record, 100),
                version: (read_u16(record, 108), read_u16(record, 110)),
            },
        )
    }
}

impl LayerMipmaps {
    /// Appends the 64 bytes of the table to `out`: the sizes that fit, then
    /// zeros.
    pub fn write(&self, out: &mut Vec<u8>)
        ensures
            final(out)@ == old(out)@ + table_bytes(self@),
    {
        let ghost before = out@;
        let ghost record = table_bytes(self@);
        let mut mip: usize = 0;
        assert(out@ =~= before + record.take(0));
        while mip < MAX_MIPMAPS
            invariant
                mip <= 16,
                record == table_bytes(self@),
                out@ == before + record.take(4 * mip),
            decreases 16 - mip,
        {
            let size: u32 = if mip < self.mipmap_sizes.len() {
                self.mipmap_sizes[mip]
            } else {
                0
            };
            let ghost so_far = out@;
            write_u32(out, size);
            proof {
                assert((4 * mip) / 4 == mip && (4 * mip + 1) / 4 == mip && (4 * mip + 2) / 4 == mip
                    && (4 * mip + 3) / 4 == mip);
                assert(u32_bytes(0u32) =~= seq![0u8, 0u8, 0u8, 0u8]);
                assert(out@ =~= before + record.take(4 * (mip + 1)));
            }
            mip = mip + 1;
        }
        assert(record.take(64) =~= record);
    }

    /// The table that the 64 bytes of `record` stand for in a file with
    /// `mipmap_count` mipmaps.
    pub fn read(record: &[u8], mipmap_count: u32) -> (table: LayerMipmaps)
        requires
            record@.len() == 64,
        ensures
            table@ == table_of(record@, mipmap_count),
    {
        let count: usize = if mipmap_count as usize <= MAX_MIPMAPS {
            mipmap_count as usize
        } else {
            MAX_MIPMAPS
        };
        let mut mipmap_sizes: Vec<u32> = Vec::new();
        let mut mip: usize = 0;
        while mip < count
            invariant
                mip <= count <= 16,
                count == table_len(mipmap_count),
                record@.len() == 64,
                mipmap_sizes@ == table_of(record@, mipmap_count).take(mip as int),
            decreases count - mip,
        {
            mipmap_sizes.push(read_u32(record, 4 * mip));
            mip = mip + 1;
            assert(mipmap_sizes@ =~= table_of(record@, mipmap_count).take(mip as int));
        }
        assert(table_of(record@, mipmap_count).take(count as int) =~= table_of(
            record@,
            mipmap_count,
        ));
        LayerMipmaps { mipmap_sizes }
    }
}

} // verus!
