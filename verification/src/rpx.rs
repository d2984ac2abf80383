//! The executable-image decoder. Strictly ordered passes: the identifier
//! (which fixes the cursor's modes), the header, the program table at its
//! declared offset, the section table at its declared offset, and a second
//! pass that resolves every section name offset against the string-table
//! section — which may itself appear anywhere in the section sequence, so
//! resolution only runs once every section exists.

use vstd::prelude::*;
use vstd::arithmetic::mul::lemma_mul_inequality;
use vstd::slice::slice_to_vec;
use crate::binary_reader::BinaryReader;
use crate::elf_header::{header_len, header_matches, ELFHeader};
use crate::elf_identifier::{id_endian, id_is_64bit, id_valid};
use crate::errors::{DecodeError, DecodeErrorKind, DecodeStage};
use crate::program_header::{ph_entry_len, ph_matches, ProgramHeader};
use crate::section_header::{
    sh_data_of, sh_entry_len, sh_matches, sh_name_off, sh_parse_ok, SectionHeader, SectionName,
};
use crate::strings::{lossy_of, lossy_string};
use crate::utils::first_zero_from;
use crate::values::{field_at, half_sz, word_sz};

verus! {

/// True when a name offset can be resolved against a string table: an empty
/// table resolves everything (to the empty name); otherwise the offset must
/// lie inside the table and a NUL terminator must follow.
pub open spec fn name_resolves(strtab: Seq<u8>, off: int) -> bool {
    strtab.len() == 0 || (off < strtab.len() && first_zero_from(strtab, off) is Some)
}

/// The text a name offset resolves to: the bytes from the offset to the
/// next NUL, decoded permissively; the empty name when the scan starts on
/// the NUL itself or the table is empty.
pub open spec fn resolved_name(strtab: Seq<u8>, off: int) -> Seq<char> {
    if strtab.len() == 0 {
        Seq::empty()
    } else {
        let end = first_zero_from(strtab, off).unwrap();
        if end == off {
            Seq::empty()
        } else {
            lossy_of(strtab.subrange(off, end))
        }
    }
}

/// Scans a string table for the NUL that ends the name at `offset` and
/// decodes the bytes before it.
pub fn resolve_name(data: &Vec<u8>, offset: usize) -> (r: Result<String, DecodeError>)
    ensures
        name_resolves(data@, offset as int) ==> (r matches Ok(s) && s@ == resolved_name(
            data@,
            offset as int,
        )),
        !name_resolves(data@, offset as int) ==> r == Err::<String, DecodeError>(
            DecodeError {
                kind: DecodeErrorKind::OutOfRange,
                stage: DecodeStage::NameResolution,
                offset,
            },
        ),
{
    if data.len() == 0 {
        return Ok(String::new());
    }
    if offset >= data.len() {
        return Err(
            DecodeError {
                kind: DecodeErrorKind::OutOfRange,
                stage: DecodeStage::NameResolution,
                offset,
            },
        );
    }
    let mut end = offset;
    while end < data.len() && data[end] != 0
        invariant
            offset <= end <= data.len(),
            data@.len() > 0,
            forall|j: int| offset <= j < end ==> data@[j] != 0,
        decreases data@.len() - end,
    {
        end = end + 1;
    }
    if end == data.len() {
        proof {
            lemma_no_zero_scan(data@, offset as int, end as int);
        }
        return Err(
            DecodeError {
                kind: DecodeErrorKind::OutOfRange,
                stage: DecodeStage::NameResolution,
                offset,
            },
        );
    }
    proof {
        lemma_zero_scan(data@, offset as int, end as int);
    }
    if end == offset {
        Ok(String::new())
    } else {
        Ok(lossy_string(vstd::slice::slice_subrange(data.as_slice(), offset, end)))
    }
}

/// A scan that ran off the end without meeting a zero byte shows there is
/// none to find.
proof fn lemma_no_zero_scan(s: Seq<u8>, off: int, end: int)
    requires
        0 <= off <= end == s.len(),
        forall|j: int| off <= j < end ==> s[j] != 0,
    ensures
        first_zero_from(s, off) is None,
    decreases end - off,
{
    if off < end {
        lemma_no_zero_scan(s, off + 1, end);
    }
}

/// A scan that stopped on a zero byte found the first one.
proof fn lemma_zero_scan(s: Seq<u8>, off: int, end: int)
    requires
        0 <= off <= end < s.len(),
        forall|j: int| off <= j < end ==> s[j] != 0,
        s[end] == 0,
    ensures
        first_zero_from(s, off) == Some(end),
    decreases end - off,
{
    if off < end {
        lemma_zero_scan(s, off + 1, end);
    }
}

/// Decoding the `i`-th section entry of the image at `base` succeeds: the
/// entry and its payload are in range and its stream inflates if flagged.
pub open spec fn sh_entry_ok(d: Seq<u8>, base: int, i: int) -> bool {
    let id = d.subrange(base, base + 16);
    let en = id_endian(id);
    let is64 = id_is_64bit(id);
    let h = half_sz(is64);
    let w = word_sz(is64);
    let sh_off = field_at(d, base + 16 + 2 * h + 3 * w, w, en);
    sh_parse_ok(d, sh_off + i * sh_entry_len(is64), en, is64)
}

/// The `i`-th section entry's name offset resolves against the payload of
/// the section the header's string-table index points to.
pub open spec fn sh_name_ok(d: Seq<u8>, base: int, i: int) -> bool {
    let id = d.subrange(base, base + 16);
    let en = id_endian(id);
    let is64 = id_is_64bit(id);
    let h = half_sz(is64);
    let w = word_sz(is64);
    let sh_off = field_at(d, base + 16 + 2 * h + 3 * w, w, en);
    let str_idx = field_at(d, base + 16 + 7 * h + 5 * w, h, en);
    let strtab = sh_data_of(d, sh_off + str_idx * sh_entry_len(is64), en, is64);
    name_resolves(strtab, sh_name_off(d, sh_off + i * sh_entry_len(is64), en) as int)
}

/// Everything the whole-image parse needs of the buffer: a well-formed
/// identifier, the full header in range, both tables in range, every
/// section's payload fetchable (and inflatable where flagged), a string
/// table index inside the section sequence, and every name offset
/// resolvable against that table's payload.
pub open spec fn rpx_parse_ok(d: Seq<u8>, base: int) -> bool {
    let id = d.subrange(base, base + 16);
    let en = id_endian(id);
    let is64 = id_is_64bit(id);
    let h = half_sz(is64);
    let w = word_sz(is64);
    let ph_off = field_at(d, base + 16 + 2 * h + 2 * w, w, en);
    let sh_off = field_at(d, base + 16 + 2 * h + 3 * w, w, en);
    let ph_count = field_at(d, base + 16 + 4 * h + 5 * w, h, en);
    let sh_count = field_at(d, base + 16 + 6 * h + 5 * w, h, en);
    let str_idx = field_at(d, base + 16 + 7 * h + 5 * w, h, en);
    &&& base + 16 <= d.len()
    &&& id_valid(id)
    &&& base + header_len(is64) <= d.len()
    &&& ph_count > 0 ==> ph_off + ph_count * ph_entry_len(is64) <= d.len()
    &&& sh_count > 0 ==> {
        &&& sh_off + sh_count * sh_entry_len(is64) <= d.len()
        &&& forall|i: int| 0 <= i < sh_count ==> #[trigger] sh_entry_ok(d, base, i)
        &&& str_idx < sh_count
        &&& forall|i: int| 0 <= i < sh_count ==> #[trigger] sh_name_ok(d, base, i)
    }
}

/// A fully decoded image: the header, the two tables, and the cursor the
/// decode ran on.
#[derive(Debug)]
pub struct Rpx {
    pub elf_header: ELFHeader,
    pub program_headers: Vec<ProgramHeader>,
    pub section_headers: Vec<SectionHeader>,
    pub reader: BinaryReader,
}

impl Default for Rpx {
    /// An empty image around an empty reader.
    fn default() -> (r: Self)
        ensures
            r.program_headers@.len() == 0,
            r.section_headers@.len() == 0,
            r.reader.data@.len() == 0,
    {
        Self {
            elf_header: ELFHeader::default(),
            program_headers: Vec::new(),
            section_headers: Vec::new(),
            reader: BinaryReader::default(),
        }
    }
}

/// The decoded tables correspond to the buffer `d` parsed from `base`: the
/// header's fields, one program entry per declared count at its sequential
/// position, one section entry per declared count with payload rules
/// applied, and every section name resolved against the string table.
pub open spec fn rpx_matches(v: Rpx, d: Seq<u8>, base: int) -> bool {
    let id = d.subrange(base, base + 16);
    let en = id_endian(id);
    let is64 = id_is_64bit(id);
    let h = half_sz(is64);
    let w = word_sz(is64);
    let ph_off = field_at(d, base + 16 + 2 * h + 2 * w, w, en);
    let sh_off = field_at(d, base + 16 + 2 * h + 3 * w, w, en);
    let str_idx = field_at(d, base + 16 + 7 * h + 5 * w, h, en);
    let strtab = sh_data_of(d, sh_off + str_idx * sh_entry_len(is64), en, is64);
    &&& header_matches(v.elf_header, d, base)
    &&& v.program_headers@.len() == v.elf_header.program_headers_count
    &&& forall|i: int|
        0 <= i < v.program_headers@.len() ==> ph_matches(
            #[trigger] v.program_headers@[i],
            d,
            ph_off + i * ph_entry_len(is64),
            en,
            is64,
        )
    &&& v.section_headers@.len() == v.elf_header.section_header_count
    &&& forall|i: int|
        0 <= i < v.section_headers@.len() ==> sh_matches(
            #[trigger] v.section_headers@[i],
            d,
            sh_off + i * sh_entry_len(is64),
            en,
            is64,
        )
    &&& forall|i: int|
        0 <= i < v.section_headers@.len() ==> ((#[trigger] v.section_headers@[i]).name matches
            SectionName::String(s) && s@ == resolved_name(
            strtab,
            sh_name_off(d, sh_off + i * sh_entry_len(is64), en) as int,
        ))
}

impl Rpx {
    /// Decodes a whole image from a cursor positioned at its start.
    /// Succeeds exactly when the buffer satisfies `rpx_parse_ok` at the
    /// cursor's offset.
    pub fn parse(reader: BinaryReader) -> (r: Result<Rpx, DecodeError>)
        ensures
            (r matches Ok(_)) <==> rpx_parse_ok(reader.data@, reader.offset as int),
            r matches Ok(v) ==> rpx_matches(v, reader.data@, reader.offset as int)
                && v.reader.data@ == reader.data@,
    {
        let mut ret = Rpx {
            elf_header: ELFHeader::default(),
            program_headers: Vec::new(),
            section_headers: Vec::new(),
            reader,
        };
        match ret.init() {
            Ok(()) => Ok(ret),
            Err(e) => Err(e),
        }
    }

    /// Runs the ordered passes against `self.reader` and fills the tables.
    /// Succeeds exactly when the buffer satisfies `rpx_parse_ok` at the
    /// cursor's offset.
    #[verifier::loop_isolation(false)]
    #[verifier::rlimit(100)]
    pub fn init(&mut self) -> (r: Result<(), DecodeError>)
        ensures
            final(self).reader.data@ == old(self).reader.data@,
            (r matches Ok(_)) <==> rpx_parse_ok(
                old(self).reader.data@,
                old(self).reader.offset as int,
            ),
            r matches Ok(_) ==> rpx_matches(
                *final(self),
                old(self).reader.data@,
                old(self).reader.offset as int,
            ),
    {
        let ghost d = self.reader.data@;
        let ghost base = self.reader.offset as int;
        let hdr = match ELFHeader::parse(&mut self.reader) {
            Ok(v) => v,
            Err(e) => {
                return Err(e);
            },
        };
        let ghost id = d.subrange(base, base + 16);
        let ghost en = id_endian(id);
        let ghost is64 = id_is_64bit(id);

        let mut phs: Vec<ProgramHeader> = Vec::new();
        if hdr.program_headers_count > 0 {
            if hdr.program_header_offset > usize::MAX as u64 {
                return Err(
                    DecodeError {
                        kind: DecodeErrorKind::OutOfRange,
                        stage: DecodeStage::ProgramTable,
                        offset: self.reader.offset,
                    },
                );
            }
            self.reader.seek(hdr.program_header_offset as usize);
            let mut i: u32 = 0;
            while i < hdr.program_headers_count
                invariant
                    0 <= i <= hdr.program_headers_count,
                    self.reader.data@ == d,
                    self.reader.endian == en,
                    self.reader.is_64bit == is64,
                    self.reader.offset == hdr.program_header_offset + i * ph_entry_len(is64),
                    phs@.len() == i,
                    forall|j: int|
                        0 <= j < i ==> ph_matches(
                            #[trigger] phs@[j],
                            d,
                            hdr.program_header_offset + j * ph_entry_len(is64),
                            en,
                            is64,
                        ),
                    i > 0 ==> hdr.program_header_offset + i * ph_entry_len(is64) <= d.len(),
                decreases hdr.program_headers_count - i,
            {
                let ph = match ProgramHeader::parse(&mut self.reader) {
                    Ok(v) => v,
                    Err(e) => {
                        proof {
                            if rpx_parse_ok(d, base) {
                                lemma_mul_inequality(
                                    i as int + 1,
                                    hdr.program_headers_count as int,
                                    ph_entry_len(is64),
                                );
                                assert(false);
                            }
                        }
                        return Err(e);
                    },
                };
                phs.push(ph);
                i = i + 1;
            }
        }

        let mut shs: Vec<SectionHeader> = Vec::new();
        if hdr.section_header_count > 0 {
            if hdr.section_header_offset > usize::MAX as u64 {
                return Err(
                    DecodeError {
                        kind: DecodeErrorKind::OutOfRange,
                        stage: DecodeStage::SectionTable,
                        offset: self.reader.offset,
                    },
                );
            }
            self.reader.seek(hdr.section_header_offset as usize);
            let mut i: u32 = 0;
            while i < hdr.section_header_count
                invariant
                    0 <= i <= hdr.section_header_count,
                    self.reader.data@ == d,
                    self.reader.endian == en,
                    self.reader.is_64bit == is64,
                    self.reader.offset == hdr.section_header_offset + i * sh_entry_len(is64),
                    shs@.len() == i,
                    forall|j: int|
                        0 <= j < i ==> sh_matches(
                            #[trigger] shs@[j],
                            d,
                            hdr.section_header_offset + j * sh_entry_len(is64),
                            en,
                            is64,
                        ),
                    forall|j: int|
                        0 <= j < i ==> (#[trigger] shs@[j]).name == SectionName::Offset(
                            sh_name_off(
                                d,
                                hdr.section_header_offset + j * sh_entry_len(is64),
                                en,
                            ) as usize,
                        ),
                    forall|j: int| 0 <= j < i ==> #[trigger] sh_entry_ok(d, base, j),
                    i > 0 ==> hdr.section_header_offset + i * sh_entry_len(is64) <= d.len(),
                decreases hdr.section_header_count - i,
            {
                let sh = match SectionHeader::parse(&mut self.reader) {
                    Ok(v) => {
                        proof {
                            let b = hdr.section_header_offset as int + i as int * sh_entry_len(
                                is64,
                            );
                            if !sh_parse_ok(d, b, en, is64) {
                                assert(false);
                            }
                            assert((i as int + 1) * sh_entry_len(is64) == i as int * sh_entry_len(
                                is64,
                            ) + sh_entry_len(is64)) by (nonlinear_arith);
                        }
                        v
                    },
                    Err(e) => {
                        proof {
                            if rpx_parse_ok(d, base) {
                                assert(sh_entry_ok(d, base, i as int));
                                assert(false);
                            }
                        }
                        return Err(e);
                    },
                };
                shs.push(sh);
                i = i + 1;
            }

            let str_idx = hdr.str_table_index as usize;
            if str_idx >= shs.len() {
                return Err(
                    DecodeError {
                        kind: DecodeErrorKind::OutOfRange,
                        stage: DecodeStage::NameResolution,
                        offset: str_idx,
                    },
                );
            }
            let strtab = slice_to_vec(shs[str_idx].data.as_slice());
            let ghost orig = shs@;
            let mut resolved: Vec<SectionHeader> = Vec::new();
            while shs.len() > 0
                invariant
                    resolved@.len() + shs@.len() == orig.len(),
                    forall|j: int|
                        0 <= j < shs@.len() ==> shs@[j] == orig[resolved@.len() + j],
                    forall|j: int|
                        0 <= j < resolved@.len() ==> section_resolved(
                            #[trigger] resolved@[j],
                            orig[j],
                            strtab@,
                        ),
                    forall|j: int| 0 <= j < resolved@.len() ==> #[trigger] sh_name_ok(d, base, j),
                decreases shs@.len(),
            {
                let mut h = shs.remove(0);
                let ghost h0 = h;
                let ghost j = resolved@.len() as int;
                let ghost e = sh_entry_len(is64);
                let ghost bj = hdr.section_header_offset as int + j * e;
                let ghost bs = hdr.section_header_offset as int + (hdr.str_table_index as int) * e;
                proof {
                    assert(h0 == orig[j]);
                    assert(orig[j].name == SectionName::Offset(sh_name_off(d, bj, en) as usize));
                    lemma_mul_inequality(j + 1, hdr.section_header_count as int, e);
                    assert((j + 1) * e == j * e + e) by (nonlinear_arith);
                    assert(bj + 4 <= d.len());
                    crate::values::lemma_value_of_bound(d.subrange(bj, bj + 4), en);
                    vstd::arithmetic::power2::lemma2_to64();
                    assert(sh_matches(orig[hdr.str_table_index as int], d, bs, en, is64));
                    assert(strtab@ == sh_data_of(d, bs, en, is64));
                }
                let name_off_opt: Option<usize> = match &h.name {
                    SectionName::Offset(o) => Option::Some(*o),
                    SectionName::String(_) => Option::None,
                };
                match name_off_opt {
                    Option::Some(o) => {
                        proof {
                            assert(o as int == sh_name_off(d, bj, en) as int);
                        }
                        let s = match resolve_name(&strtab, o) {
                            Ok(s) => s,
                            Err(e) => {
                                proof {
                                    if rpx_parse_ok(d, base) {
                                        assert(sh_name_ok(d, base, j));
                                        assert(false);
                                    }
                                }
                                return Err(e);
                            },
                        };
                        proof {
                            assert(name_resolves(strtab@, o as int));
                            assert(sh_name_ok(d, base, j));
                        }
                        h.name = SectionName::String(s);
                    },
                    Option::None => {},
                }
                resolved.push(h);
            }
            shs = resolved;
            proof {
                let count = hdr.section_header_count as int;
                let e2 = sh_entry_len(is64);
                let sh_off_i = hdr.section_header_offset as int;
                let sidx = hdr.str_table_index as int;
                assert forall|i2: int| 0 <= i2 < count implies sh_matches(
                    #[trigger] shs@[i2],
                    d,
                    sh_off_i + i2 * e2,
                    en,
                    is64,
                ) by {
                    assert(section_resolved(shs@[i2], orig[i2], strtab@));
                    assert(sh_matches(orig[i2], d, sh_off_i + i2 * e2, en, is64));
                }
                assert forall|i2: int| 0 <= i2 < count implies ((#[trigger] shs@[i2]).name matches
                    SectionName::String(s) && s@ == resolved_name(
                    sh_data_of(d, sh_off_i + sidx * e2, en, is64),
                    sh_name_off(d, sh_off_i + i2 * e2, en) as int,
                )) by {
                    assert(section_resolved(shs@[i2], orig[i2], strtab@));
                    assert(orig[i2].name == SectionName::Offset(
                        sh_name_off(d, sh_off_i + i2 * e2, en) as usize,
                    ));
                    lemma_mul_inequality(i2 + 1, count, e2);
                    assert((i2 + 1) * e2 == i2 * e2 + e2) by (nonlinear_arith);
                    assert(sh_off_i + i2 * e2 + 4 <= d.len());
                    crate::values::lemma_value_of_bound(
                        d.subrange(sh_off_i + i2 * e2, sh_off_i + i2 * e2 + 4),
                        en,
                    );
                    vstd::arithmetic::power2::lemma2_to64();
                    assert(sh_matches(orig[sidx], d, sh_off_i + sidx * e2, en, is64));
                    assert(strtab@ == sh_data_of(d, sh_off_i + sidx * e2, en, is64));
                }
            }
        }

        self.elf_header = hdr;
        self.program_headers = phs;
        self.section_headers = shs;
        Ok(())
    }

    /// Resolves one name offset against the payload of the section the
    /// header's string-table index points to.
    pub fn read_str_from_strtab(&self, offset: usize) -> (r: Result<String, DecodeError>)
        ensures
            ({
                let idx = self.elf_header.str_table_index as int;
                &&& idx >= self.section_headers@.len() ==> (r matches Err(e) && e.kind
                    == DecodeErrorKind::OutOfRange && e.stage == DecodeStage::NameResolution)
                &&& idx < self.section_headers@.len() ==> ({
                    let strtab = self.section_headers@[idx].data@;
                    &&& name_resolves(strtab, offset as int) ==> (r matches Ok(s) && s@
                        == resolved_name(strtab, offset as int))
                    &&& !name_resolves(strtab, offset as int) ==> (r matches Err(e) && e.kind
                        == DecodeErrorKind::OutOfRange && e.stage == DecodeStage::NameResolution)
                })
            }),
    {
        let idx = self.elf_header.str_table_index as usize;
        if idx >= self.section_headers.len() {
            return Err(
                DecodeError {
                    kind: DecodeErrorKind::OutOfRange,
                    stage: DecodeStage::NameResolution,
                    offset: idx,
                },
            );
        }
        resolve_name(&self.section_headers[idx].data, offset)
    }
}

/// `v` is `orig` with its name offset resolved against `strtab` and
/// everything else kept.
pub open spec fn section_resolved(v: SectionHeader, orig: SectionHeader, strtab: Seq<u8>) -> bool {
    &&& v.sh_type == orig.sh_type
    &&& v.sh_flags == orig.sh_flags
    &&& v.address == orig.address
    &&& v.offset == orig.offset
    &&& v.size == orig.size
    &&& v.sh_link == orig.sh_link
    &&& v.sh_info == orig.sh_info
    &&& v.alignment == orig.alignment
    &&& v.sh_ent_size == orig.sh_ent_size
    &&& v.remained_flags == orig.remained_flags
    &&& v.data@ == orig.data@
    &&& (orig.name matches SectionName::Offset(o) ==> (v.name matches SectionName::String(s) && s@
        == resolved_name(strtab, o as int)))
    &&& (orig.name matches SectionName::String(s0) ==> v.name == orig.name)
}

} // verus!
