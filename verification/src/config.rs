//! The patch bundle: a zip archive holding a JSON descriptor and raw
//! section dumps for one build of the game binary.
//!
//! Address-valued descriptor fields are hex strings with a `0x` prefix;
//! the hex reader here is verified against an exact specification.  The
//! archive and the JSON document are read through trusted wrappers.

use vstd::prelude::*;
use crate::ReplayError;
use crate::jsonval::{
    json_obj_str_field, json_obj_str_field_of, json_obj_u64_field, json_obj_u64_field_of,
    json_str_field, json_str_field_of,
};
use vstd::string::StrSliceExecFns;

verus! {

broadcast use vstd::string::group_string_axioms;

/// The absolute virtual address the section dumps were captured at.
pub const BASE_ADDR: u64 = 0x7ff76afd0000;

/// What one named entry of a zip archive holds: `None` where the archive
/// or the entry cannot be read.  A function of the archive bytes and the
/// name alone.
pub uninterp spec fn zip_entry(data: Seq<u8>, name: Seq<char>) -> Option<Seq<u8>>;

/// Relies on `zip::ZipArchive::new`, `by_name` and `Read::read_to_end`:
/// extracts one named entry of an in-memory archive.
#[verifier::external_body]
fn zip_entry_bytes(data: &[u8], name: &str) -> (r: Option<Vec<u8>>)
    ensures
        match r {
            Some(v) => zip_entry(data@, name@) == Some(v@),
            None => zip_entry(data@, name@) is None,
        },
{
    let cursor = std::io::Cursor::new(data);
    let mut archive = match zip::ZipArchive::new(cursor) {
        Ok(a) => a,
        Err(_) => return None,
    };
    let mut file = match archive.by_name(name) {
        Ok(f) => f,
        Err(_) => return None,
    };
    let mut out = Vec::new();
    match std::io::Read::read_to_end(&mut file, &mut out) {
        Ok(_) => Some(out),
        Err(_) => None,
    }
}

/// The value of one hex digit.
pub open spec fn spec_hex_digit(c: char) -> Option<int> {
    if '0' <= c && c <= '9' {
        Some(c as int - '0' as int)
    } else if 'a' <= c && c <= 'f' {
        Some(c as int - 'a' as int + 10)
    } else if 'A' <= c && c <= 'F' {
        Some(c as int - 'A' as int + 10)
    } else {
        None
    }
}

/// The number a hex string denotes, most significant digit first; `None`
/// on any non-digit.  The empty string denotes zero here; users reject it
/// separately.
pub open spec fn spec_hex_val(s: Seq<char>) -> Option<int>
    decreases s.len(),
{
    if s.len() == 0 {
        Some(0)
    } else {
        match (spec_hex_val(s.drop_last()), spec_hex_digit(s.last())) {
            (Some(h), Some(d)) => Some(16 * h + d),
            _ => None,
        }
    }
}

/// The string with every leading `0x` pair removed.
pub open spec fn spec_strip_0x(s: Seq<char>) -> Seq<char>
    decreases s.len(),
{
    if s.len() >= 2 && s[0] == '0' && s[1] == 'x' {
        spec_strip_0x(s.skip(2))
    } else {
        s
    }
}

/// What a hex field must decode to: the stripped string is non-empty, all
/// digits, and its value fits `u64`.
pub open spec fn spec_hex_u64(s: Seq<char>) -> Option<u64> {
    let t = spec_strip_0x(s);
    if t.len() == 0 {
        None
    } else {
        match spec_hex_val(t) {
            Some(v) => if v <= u64::MAX {
                Some(v as u64)
            } else {
                None
            },
            None => None,
        }
    }
}

/// A hex value is non-negative.
proof fn lemma_hex_val_nonneg(s: Seq<char>)
    ensures
        spec_hex_val(s) matches Some(v) ==> v >= 0,
    decreases s.len(),
{
    if s.len() > 0 {
        lemma_hex_val_nonneg(s.drop_last());
    }
}

/// A non-digit anywhere makes the whole string invalid.
proof fn lemma_hex_val_bad(s: Seq<char>, i: int)
    requires
        0 <= i < s.len(),
        spec_hex_digit(s[i]) is None,
    ensures
        spec_hex_val(s) is None,
    decreases s.len(),
{
    if i == s.len() - 1 {
    } else {
        lemma_hex_val_bad(s.drop_last(), i);
    }
}

/// The value of a prefix never exceeds the value of the whole string, and
/// an invalid prefix makes the whole string invalid.
proof fn lemma_hex_val_prefix(s: Seq<char>, k: int)
    requires
        0 <= k <= s.len(),
    ensures
        spec_hex_val(s.subrange(0, k)) is None ==> spec_hex_val(s) is None,
        spec_hex_val(s) matches Some(v) ==> (spec_hex_val(s.subrange(0, k)) matches Some(w) ==> v
            >= w),
    decreases s.len() - k,
{
    if k == s.len() {
        assert(s.subrange(0, k) =~= s);
    } else {
        lemma_hex_val_prefix(s, k + 1);
        let p1 = s.subrange(0, k + 1);
        assert(p1.drop_last() =~= s.subrange(0, k));
        lemma_hex_val_nonneg(s.subrange(0, k));
        match spec_hex_val(s.subrange(0, k)) {
            Some(w) => {
                match spec_hex_digit(p1.last()) {
                    Some(d) => {
                        assert(spec_hex_val(p1) == Some(16 * w + d));
                    },
                    None => {
                        assert(spec_hex_val(p1) is None);
                    },
                }
            },
            None => {
                assert(spec_hex_val(p1) is None);
            },
        }
    }
}

/// Decodes one hex digit.
fn hex_digit(c: char) -> (r: Option<u8>)
    ensures
        match r {
            Some(d) => spec_hex_digit(c) == Some(d as int) && d < 16,
            None => spec_hex_digit(c) is None,
        },
{
    let u: u32 = c as u32;
    if u >= 48 && u <= 57 {
        Some((u - 48) as u8)
    } else if u >= 97 && u <= 102 {
        Some((u - 97 + 10) as u8)
    } else if u >= 65 && u <= 70 {
        Some((u - 65 + 10) as u8)
    } else {
        None
    }
}

/// The section descriptors and decoder descriptors of a patch bundle.
pub struct WardSpawnDecrypt {
    pub netid: u32,
    pub rva: u64,
    pub end_rva: u64,
    pub id_offset: u64,
    pub owner_id_offset: u64,
    pub name_offset: u64,
    pub name_len_offset: u64,
    pub x_offset: u64,
    pub x_write_count: u32,
    pub y_offset: u64,
    pub y_write_count: u32,
}

/// The movement-decoder descriptor.
pub struct MovDecrypt {
    pub netid: u32,
    pub rva: u64,
    pub end_rva: u64,
    pub payload_offset: u64,
    pub payload_size_offset: u64,
}

/// One dumped section of the game binary.
pub struct Section {
    pub name: String,
    pub rva: u64,
    pub size: u64,
    pub raw: Vec<u8>,
}

/// The whole patch image.
pub struct Config {
    pub alloc1: u64,
    pub alloc2: u64,
    pub skip: u64,
    pub ward_spawn_decrypt: WardSpawnDecrypt,
    pub mov_decrypt: MovDecrypt,
    pub base_addr: u64,
    pub player_id_start: u32,
    pub text: Section,
    pub data: Section,
    pub rdata: Section,
}

impl Section {
    /// The raw bytes fill exactly the declared size.
    pub open spec fn wf(&self) -> bool {
        self.raw@.len() == self.size
    }
}

/// The 64-bit value of the hex string under `key` of the descriptor.
pub open spec fn spec_patch_hex(doc: Seq<u8>, key: Seq<char>) -> Option<u64> {
    match json_str_field(doc, key) {
        Some(s) => spec_hex_u64(s),
        None => None,
    }
}

/// The 64-bit value of the hex string under `obj.key` of the descriptor.
pub open spec fn spec_patch_obj_hex(doc: Seq<u8>, obj: Seq<char>, key: Seq<char>) -> Option<u64> {
    match json_obj_str_field(doc, obj, key) {
        Some(s) => spec_hex_u64(s),
        None => None,
    }
}

/// One section descriptor is well-formed: a hex `rva`, an integer `size`,
/// and a raw archive entry of exactly that many bytes.
pub open spec fn spec_section_parsable(
    patch: Seq<u8>,
    doc: Seq<u8>,
    name: Seq<char>,
    bin: Seq<char>,
) -> bool {
    &&& spec_patch_obj_hex(doc, name, "rva"@) is Some
    &&& (json_obj_u64_field(doc, name, "size"@) matches Some(sz) && (zip_entry(patch, bin)
        matches Some(raw) && raw.len() == sz))
}

/// One decoded section is bound to its descriptor and archive entry.
pub open spec fn spec_section_matches(
    patch: Seq<u8>,
    doc: Seq<u8>,
    name: Seq<char>,
    bin: Seq<char>,
    s: Section,
) -> bool {
    &&& s.name@ == name
    &&& spec_patch_obj_hex(doc, name, "rva"@) == Some(s.rva)
    &&& json_obj_u64_field(doc, name, "size"@) == Some(s.size)
    &&& (zip_entry(patch, bin) matches Some(raw) && s.raw@ == raw)
}

/// The decoder under `obj` starts inside the text section.
pub open spec fn spec_rva_in_text(doc: Seq<u8>, obj: Seq<char>) -> bool {
    let t_rva = spec_patch_obj_hex(doc, "text"@, "rva"@).unwrap();
    let t_size = json_obj_u64_field(doc, "text"@, "size"@).unwrap();
    let rva = spec_patch_obj_hex(doc, obj, "rva_start"@).unwrap();
    t_rva <= rva && rva - t_rva < t_size
}

/// Whether a patch bundle is decodable: the four archive entries exist,
/// every descriptor field is present and well-formed, the write counts
/// and the player id fit 32 bits, the section byte counts match their
/// declared sizes, and both decoder entry points lie inside the text
/// section.
pub open spec fn spec_config_parsable(patch: Seq<u8>) -> bool {
    match zip_entry(patch, "result.json"@) {
        None => false,
        Some(doc) => {
            &&& zip_entry(patch, "text.bin"@) is Some
            &&& zip_entry(patch, "data.bin"@) is Some
            &&& zip_entry(patch, "rdata.bin"@) is Some
            &&& spec_patch_hex(doc, "alloc1_rva"@) is Some
            &&& spec_patch_hex(doc, "alloc2_rva"@) is Some
            &&& spec_patch_hex(doc, "skip_rva"@) is Some
            &&& (spec_patch_hex(doc, "player_id_start"@) matches Some(v) && v <= u32::MAX)
            &&& json_obj_u64_field(doc, "ward_spawn_decrypt"@, "netid"@) is Some
            &&& spec_patch_obj_hex(doc, "ward_spawn_decrypt"@, "rva_start"@) is Some
            &&& spec_patch_obj_hex(doc, "ward_spawn_decrypt"@, "rva_end"@) is Some
            &&& spec_patch_obj_hex(doc, "ward_spawn_decrypt"@, "id_offset"@) is Some
            &&& spec_patch_obj_hex(doc, "ward_spawn_decrypt"@, "owner_id_offset"@) is Some
            &&& spec_patch_obj_hex(doc, "ward_spawn_decrypt"@, "name_offset"@) is Some
            &&& spec_patch_obj_hex(doc, "ward_spawn_decrypt"@, "name_len_offset"@) is Some
            &&& spec_patch_obj_hex(doc, "ward_spawn_decrypt"@, "x_offset"@) is Some
            &&& (spec_patch_obj_hex(doc, "ward_spawn_decrypt"@, "x_write_count"@) matches Some(
                v,
            ) && v <= u32::MAX)
            &&& spec_patch_obj_hex(doc, "ward_spawn_decrypt"@, "y_offset"@) is Some
            &&& (spec_patch_obj_hex(doc, "ward_spawn_decrypt"@, "y_write_count"@) matches Some(
                v,
            ) && v <= u32::MAX)
            &&& json_obj_u64_field(doc, "mov_decrypt"@, "netid"@) is Some
            &&& spec_patch_obj_hex(doc, "mov_decrypt"@, "rva_start"@) is Some
            &&& spec_patch_obj_hex(doc, "mov_decrypt"@, "rva_end"@) is Some
            &&& spec_patch_obj_hex(doc, "mov_decrypt"@, "payload_offset"@) is Some
            &&& spec_patch_obj_hex(doc, "mov_decrypt"@, "payload_size_offset"@) is Some
            &&& spec_section_parsable(patch, doc, "text"@, "text.bin"@)
            &&& spec_section_parsable(patch, doc, "data"@, "data.bin"@)
            &&& spec_section_parsable(patch, doc, "rdata"@, "rdata.bin"@)
            &&& spec_rva_in_text(doc, "ward_spawn_decrypt"@)
            &&& spec_rva_in_text(doc, "mov_decrypt"@)
        },
    }
}

/// Every field of a decoded patch image is bound to its source: the hex
/// fields to their strings, the numbers to their members, the sections to
/// their descriptors and archive entries, and the base address to the
/// capture address.
pub open spec fn spec_config_matches(patch: Seq<u8>, c: Config) -> bool {
    match zip_entry(patch, "result.json"@) {
        None => false,
        Some(doc) => {
            &&& spec_patch_hex(doc, "alloc1_rva"@) == Some(c.alloc1)
            &&& spec_patch_hex(doc, "alloc2_rva"@) == Some(c.alloc2)
            &&& spec_patch_hex(doc, "skip_rva"@) == Some(c.skip)
            &&& spec_patch_hex(doc, "player_id_start"@) == Some(c.player_id_start as u64)
            &&& (json_obj_u64_field(doc, "ward_spawn_decrypt"@, "netid"@) matches Some(v)
                && c.ward_spawn_decrypt.netid == v as u32)
            &&& spec_patch_obj_hex(doc, "ward_spawn_decrypt"@, "rva_start"@) == Some(
                c.ward_spawn_decrypt.rva,
            )
            &&& spec_patch_obj_hex(doc, "ward_spawn_decrypt"@, "rva_end"@) == Some(
                c.ward_spawn_decrypt.end_rva,
            )
            &&& spec_patch_obj_hex(doc, "ward_spawn_decrypt"@, "id_offset"@) == Some(
                c.ward_spawn_decrypt.id_offset,
            )
            &&& spec_patch_obj_hex(doc, "ward_spawn_decrypt"@, "owner_id_offset"@) == Some(
                c.ward_spawn_decrypt.owner_id_offset,
            )
            &&& spec_patch_obj_hex(doc, "ward_spawn_decrypt"@, "name_offset"@) == Some(
                c.ward_spawn_decrypt.name_offset,
            )
            &&& spec_patch_obj_hex(doc, "ward_spawn_decrypt"@, "name_len_offset"@) == Some(
                c.ward_spawn_decrypt.name_len_offset,
            )
            &&& spec_patch_obj_hex(doc, "ward_spawn_decrypt"@, "x_offset"@) == Some(
                c.ward_spawn_decrypt.x_offset,
            )
            &&& spec_patch_obj_hex(doc, "ward_spawn_decrypt"@, "x_write_count"@) == Some(
                c.ward_spawn_decrypt.x_write_count as u64,
            )
            &&& spec_patch_obj_hex(doc, "ward_spawn_decrypt"@, "y_offset"@) == Some(
                c.ward_spawn_decrypt.y_offset,
            )
            &&& spec_patch_obj_hex(doc, "ward_spawn_decrypt"@, "y_write_count"@) == Some(
                c.ward_spawn_decrypt.y_write_count as u64,
            )
            &&& (json_obj_u64_field(doc, "mov_decrypt"@, "netid"@) matches Some(v)
                && c.mov_decrypt.netid == v as u32)
            &&& spec_patch_obj_hex(doc, "mov_decrypt"@, "rva_start"@) == Some(c.mov_decrypt.rva)
            &&& spec_patch_obj_hex(doc, "mov_decrypt"@, "rva_end"@) == Some(
                c.mov_decrypt.end_rva,
            )
            &&& spec_patch_obj_hex(doc, "mov_decrypt"@, "payload_offset"@) == Some(
                c.mov_decrypt.payload_offset,
            )
            &&& spec_patch_obj_hex(doc, "mov_decrypt"@, "payload_size_offset"@) == Some(
                c.mov_decrypt.payload_size_offset,
            )
            &&& spec_section_matches(patch, doc, "text"@, "text.bin"@, c.text)
            &&& spec_section_matches(patch, doc, "data"@, "data.bin"@, c.data)
            &&& spec_section_matches(patch, doc, "rdata"@, "rdata.bin"@, c.rdata)
            &&& c.base_addr == BASE_ADDR
        },
    }
}

impl Config {
    /// Sections carry as many bytes as they declare, both decoder entry
    /// ranges lie inside the text section, and the base address is the
    /// capture address.
    pub open spec fn wf(&self) -> bool {
        &&& self.text.wf()
        &&& self.data.wf()
        &&& self.rdata.wf()
        &&& self.text.rva <= self.ward_spawn_decrypt.rva < self.text.rva + self.text.size
        &&& self.text.rva <= self.mov_decrypt.rva < self.text.rva + self.text.size
        &&& self.base_addr == BASE_ADDR
    }

    /// Reads the hex field under `key` of the descriptor.
    fn hex_field(doc: &[u8], key: &str) -> (r: Result<u64, ReplayError>)
        ensures
            match spec_patch_hex(doc@, key@) {
                Some(v) => r matches Ok(v2) && v2 == v,
                None => r matches Err(e) && e == ReplayError::PatchConfigError,
            },
    {
        let text: String = match json_str_field_of(doc, key) {
            Some(s) => s,
            None => {
                return Err(ReplayError::PatchConfigError);
            },
        };
        Config::str_hex_to_u64(text.as_str())
    }

    /// Reads the hex field under `obj.key` of the descriptor.
    fn obj_hex_field(doc: &[u8], obj: &str, key: &str) -> (r: Result<u64, ReplayError>)
        ensures
            match spec_patch_obj_hex(doc@, obj@, key@) {
                Some(v) => r matches Ok(v2) && v2 == v,
                None => r matches Err(e) && e == ReplayError::PatchConfigError,
            },
    {
        let text: String = match json_obj_str_field_of(doc, obj, key) {
            Some(s) => s,
            None => {
                return Err(ReplayError::PatchConfigError);
            },
        };
        Config::str_hex_to_u64(text.as_str())
    }

    /// Reads the integer field under `obj.key` of the descriptor.
    fn obj_int_field(doc: &[u8], obj: &str, key: &str) -> (r: Result<u64, ReplayError>)
        ensures
            match json_obj_u64_field(doc@, obj@, key@) {
                Some(v) => r matches Ok(v2) && v2 == v,
                None => r matches Err(e) && e == ReplayError::PatchConfigError,
            },
    {
        match json_obj_u64_field_of(doc, obj, key) {
            Some(n) => Ok(n),
            None => Err(ReplayError::PatchConfigError),
        }
    }

    /// Parses a hex string, with any leading `0x` pairs stripped, into a
    /// 64-bit value.
    #[verifier::loop_isolation(false)]
    pub fn str_hex_to_u64(s: &str) -> (r: Result<u64, ReplayError>)
        ensures
            match spec_hex_u64(s@) {
                Some(v) => r matches Ok(v2) && v2 == v,
                None => r matches Err(e) && e == ReplayError::PatchConfigError,
            },
    {
        let n: usize = s.unicode_len();
        let mut start: usize = 0;
        proof {
            assert(s@.skip(0) =~= s@);
        }
        while start < n && start + 1 < n && s.get_char(start) == '0' && s.get_char(start + 1)
            == 'x'
            invariant
                start <= n,
                spec_strip_0x(s@) == spec_strip_0x(s@.skip(start as int)),
            decreases n - start,
        {
            proof {
                assert(s@.skip(start as int)[0] == s@[start as int]);
                assert(s@.skip(start as int)[1] == s@[start as int + 1]);
                assert(s@.skip(start as int).skip(2) =~= s@.skip(start as int + 2));
            }
            start = start + 2;
        }
        let ghost t = spec_strip_0x(s@);
        proof {
            assert(t == s@.skip(start as int));
        }
        if start == n {
            return Err(ReplayError::PatchConfigError);
        }
        let mut acc: u64 = 0;
        let mut i: usize = start;
        while i < n
            invariant
                start <= i <= n,
                spec_hex_val(t.subrange(0, i - start)) == Some(acc as int),
            decreases n - i,
        {
            let c: char = s.get_char(i);
            proof {
                assert(t[i - start] == s@[i as int]);
            }
            let d: u8 = match hex_digit(c) {
                Some(d) => d,
                None => {
                    proof {
                        lemma_hex_val_bad(t, i - start);
                    }
                    return Err(ReplayError::PatchConfigError);
                },
            };
            proof {
                assert(t.subrange(0, i - start + 1).drop_last() =~= t.subrange(0, i - start));
                assert(t.subrange(0, i - start + 1).last() == t[i - start]);
            }
            if acc > (u64::MAX - d as u64) / 16 {
                proof {
                    lemma_hex_val_prefix(t, i - start + 1);
                    lemma_hex_val_nonneg(t);
                }
                return Err(ReplayError::PatchConfigError);
            }
            acc = acc * 16 + d as u64;
            i = i + 1;
        }
        proof {
            assert(t.subrange(0, n - start) =~= t);
        }
        Ok(acc)
    }

    /// Parses a hex string into a 32-bit value.
    pub fn str_hex_to_u32(s: &str) -> (r: Result<u32, ReplayError>)
        ensures
            match spec_hex_u64(s@) {
                Some(v) => if v <= u32::MAX {
                    r matches Ok(v2) && v2 == v
                } else {
                    r matches Err(e) && e == ReplayError::PatchConfigError
                },
                None => r matches Err(e) && e == ReplayError::PatchConfigError,
            },
    {
        match Config::str_hex_to_u64(s) {
            Ok(v) => {
                if v <= 0xFFFF_FFFF {
                    Ok(v as u32)
                } else {
                    Err(ReplayError::PatchConfigError)
                }
            },
            Err(e) => Err(e),
        }
    }

    /// Loads a patch bundle from the bytes of its zip archive.  Succeeds
    /// exactly on a decodable bundle, and then every field is bound to
    /// its source.
    pub fn parse(patch_bytes: &[u8]) -> (r: Result<Config, ReplayError>)
        ensures
            r is Ok <==> spec_config_parsable(patch_bytes@),
            r matches Ok(c) ==> spec_config_matches(patch_bytes@, c) && c.wf(),
            r matches Err(e) ==> e == ReplayError::PatchConfigError,
    {
        let result_json: Vec<u8> = match zip_entry_bytes(patch_bytes, "result.json") {
            Some(v) => v,
            None => {
                return Err(ReplayError::PatchConfigError);
            },
        };
        let doc: &[u8] = result_json.as_slice();
        let raw_text: Vec<u8> = match zip_entry_bytes(patch_bytes, "text.bin") {
            Some(v) => v,
            None => {
                return Err(ReplayError::PatchConfigError);
            },
        };
        let raw_data: Vec<u8> = match zip_entry_bytes(patch_bytes, "data.bin") {
            Some(v) => v,
            None => {
                return Err(ReplayError::PatchConfigError);
            },
        };
        let raw_rdata: Vec<u8> = match zip_entry_bytes(patch_bytes, "rdata.bin") {
            Some(v) => v,
            None => {
                return Err(ReplayError::PatchConfigError);
            },
        };

        let alloc1 = match Config::hex_field(doc, "alloc1_rva") {
            Ok(v) => v,
            Err(e) => {
                return Err(e);
            },
        };
        let alloc2 = match Config::hex_field(doc, "alloc2_rva") {
            Ok(v) => v,
            Err(e) => {
                return Err(e);
            },
        };
        let skip = match Config::hex_field(doc, "skip_rva") {
            Ok(v) => v,
            Err(e) => {
                return Err(e);
            },
        };
        let player_id_start = match Config::hex_field(doc, "player_id_start") {
            Ok(v) => if v <= 0xFFFF_FFFF {
                v as u32
            } else {
                return Err(ReplayError::PatchConfigError);
            },
            Err(e) => {
                return Err(e);
            },
        };

        let ward_netid = match Config::obj_int_field(doc, "ward_spawn_decrypt", "netid") {
            Ok(v) => v as u32,
            Err(e) => {
                return Err(e);
            },
        };
        let ward_rva = match Config::obj_hex_field(doc, "ward_spawn_decrypt", "rva_start") {
            Ok(v) => v,
            Err(e) => {
                return Err(e);
            },
        };
        let ward_end = match Config::obj_hex_field(doc, "ward_spawn_decrypt", "rva_end") {
            Ok(v) => v,
            Err(e) => {
                return Err(e);
            },
        };
        let id_offset = match Config::obj_hex_field(doc, "ward_spawn_decrypt", "id_offset") {
            Ok(v) => v,
            Err(e) => {
                return Err(e);
            },
        };
        let owner_id_offset = match Config::obj_hex_field(
            doc,
            "ward_spawn_decrypt",
            "owner_id_offset",
        ) {
            Ok(v) => v,
            Err(e) => {
                return Err(e);
            },
        };
        let name_offset = match Config::obj_hex_field(doc, "ward_spawn_decrypt", "name_offset") {
            Ok(v) => v,
            Err(e) => {
                return Err(e);
            },
        };
        let name_len_offset = match Config::obj_hex_field(
            doc,
            "ward_spawn_decrypt",
            "name_len_offset",
        ) {
            Ok(v) => v,
            Err(e) => {
                return Err(e);
            },
        };
        let x_offset = match Config::obj_hex_field(doc, "ward_spawn_decrypt", "x_offset") {
            Ok(v) => v,
            Err(e) => {
                return Err(e);
            },
        };
        let x_write_count = match Config::obj_hex_field(
            doc,
            "ward_spawn_decrypt",
            "x_write_count",
        ) {
            Ok(v) => if v <= 0xFFFF_FFFF {
                v as u32
            } else {
                return Err(ReplayError::PatchConfigError);
            },
            Err(e) => {
                return Err(e);
            },
        };
        let y_offset = match Config::obj_hex_field(doc, "ward_spawn_decrypt", "y_offset") {
            Ok(v) => v,
            Err(e) => {
                return Err(e);
            },
        };
        let y_write_count = match Config::obj_hex_field(
            doc,
            "ward_spawn_decrypt",
            "y_write_count",
        ) {
            Ok(v) => if v <= 0xFFFF_FFFF {
                v as u32
            } else {
                return Err(ReplayError::PatchConfigError);
            },
            Err(e) => {
                return Err(e);
            },
        };

        let mov_netid = match Config::obj_int_field(doc, "mov_decrypt", "netid") {
            Ok(v) => v as u32,
            Err(e) => {
                return Err(e);
            },
        };
        let mov_rva = match Config::obj_hex_field(doc, "mov_decrypt", "rva_start") {
            Ok(v) => v,
            Err(e) => {
                return Err(e);
            },
        };
        let mov_end = match Config::obj_hex_field(doc, "mov_decrypt", "rva_end") {
            Ok(v) => v,
            Err(e) => {
                return Err(e);
            },
        };
        let payload_offset = match Config::obj_hex_field(doc, "mov_decrypt", "payload_offset") {
            Ok(v) => v,
            Err(e) => {
                return Err(e);
            },
        };
        let payload_size_offset = match Config::obj_hex_field(
            doc,
            "mov_decrypt",
            "payload_size_offset",
        ) {
            Ok(v) => v,
            Err(e) => {
                return Err(e);
            },
        };

        let text = match Config::section_of(doc, "text", raw_text) {
            Ok(s) => s,
            Err(e) => {
                return Err(e);
            },
        };
        let data = match Config::section_of(doc, "data", raw_data) {
            Ok(s) => s,
            Err(e) => {
                return Err(e);
            },
        };
        let rdata = match Config::section_of(doc, "rdata", raw_rdata) {
            Ok(s) => s,
            Err(e) => {
                return Err(e);
            },
        };

        if !(text.rva <= ward_rva && ward_rva - text.rva < text.size) {
            return Err(ReplayError::PatchConfigError);
        }
        if !(text.rva <= mov_rva && mov_rva - text.rva < text.size) {
            return Err(ReplayError::PatchConfigError);
        }

        Ok(
            Config {
                alloc1,
                alloc2,
                skip,
                ward_spawn_decrypt: WardSpawnDecrypt {
                    netid: ward_netid,
                    rva: ward_rva,
                    end_rva: ward_end,
                    id_offset,
                    owner_id_offset,
                    name_offset,
                    name_len_offset,
                    x_offset,
                    x_write_count,
                    y_offset,
                    y_write_count,
                },
                mov_decrypt: MovDecrypt {
                    netid: mov_netid,
                    rva: mov_rva,
                    end_rva: mov_end,
                    payload_offset,
                    payload_size_offset,
                },
                base_addr: BASE_ADDR,
                player_id_start,
                text,
                data,
                rdata,
            },
        )
    }

    /// Reads one section descriptor and pairs it with its raw bytes,
    /// holding the byte count to the declared size.
    fn section_of(doc: &[u8], name: &str, raw: Vec<u8>) -> (r: Result<Section, ReplayError>)
        ensures
            r is Ok <==> (spec_patch_obj_hex(doc@, name@, "rva"@) is Some && (json_obj_u64_field(
                doc@,
                name@,
                "size"@,
            ) matches Some(sz) && raw@.len() == sz)),
            r matches Ok(s) ==> {
                &&& s.name@ == name@
                &&& spec_patch_obj_hex(doc@, name@, "rva"@) == Some(s.rva)
                &&& json_obj_u64_field(doc@, name@, "size"@) == Some(s.size)
                &&& s.raw@ == raw@
                &&& s.wf()
            },
            r matches Err(e) ==> e == ReplayError::PatchConfigError,
    {
        let rva = match Config::obj_hex_field(doc, name, "rva") {
            Ok(v) => v,
            Err(e) => {
                return Err(e);
            },
        };
        let size = match Config::obj_int_field(doc, name, "size") {
            Ok(v) => v,
            Err(e) => {
                return Err(e);
            },
        };
        if raw.len() as u64 != size {
            return Err(ReplayError::PatchConfigError);
        }
        Ok(Section { name: name.to_owned(), rva, size, raw })
    }
}

} // verus!
