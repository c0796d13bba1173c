//! Font decoding strategies and the text decoder: from the raw bytes of a
//! show-text operator to Unicode characters.

use vstd::prelude::*;
use vstd::string::*;
use vstd::utf8::is_scalar;
use vstd::utf8::valid_utf8;
use vstd::utf8::decode_utf8;
use crate::text::char_from_u32;
use crate::text::push_str_chars;
use crate::text::utf8_decode;

verus! {

/// Decoding a raw UTF-16BE or UTF-8 byte string failed on a malformed
/// payload: an unpaired surrogate or an invalid byte sequence.
#[derive(Clone, Copy, PartialEq, Eq, Structural, Debug)]
pub struct TextDecodeError;

/// The recognized single-byte base encodings of a font's simple encoding.
#[derive(Clone, Copy, PartialEq, Eq, Structural, Debug)]
pub enum BaseEncodingKind {
    Standard,
    Symbol,
    WinAnsi,
    MacRoman,
}

pub open spec fn base_tag(b: BaseEncodingKind) -> int {
    match b {
        BaseEncodingKind::Standard => 0,
        BaseEncodingKind::Symbol => 1,
        BaseEncodingKind::WinAnsi => 2,
        BaseEncodingKind::MacRoman => 3,
    }
}

/// The character that the base encoding table numbered `table` assigns to
/// the single-byte code `code`, if any.
pub uninterp spec fn base_glyph_of(table: int, code: u8) -> Option<char>;

/// The Unicode expansion of a glyph name according to the Adobe glyph
/// list, if the name is listed.
pub uninterp spec fn glyph_unicode_of(name: Seq<char>) -> Option<Seq<char>>;

/// Relies on pdf_encoding's ForwardMap::get over the four static base
/// encoding tables: the result is a function of the table and the code
/// alone.
#[verifier::external_body]
fn base_forward_get(base: BaseEncodingKind, code: u8) -> (r: Option<char>)
    ensures
        r == base_glyph_of(base_tag(base), code),
{
    match base {
        BaseEncodingKind::Standard => pdf_encoding::STANDARD.get(code),
        BaseEncodingKind::Symbol => pdf_encoding::SYMBOL.get(code),
        BaseEncodingKind::WinAnsi => pdf_encoding::WINANSI.get(code),
        BaseEncodingKind::MacRoman => pdf_encoding::MACROMAN.get(code),
    }
}

/// Relies on pdf_encoding::glyphname_to_unicode: the static Adobe glyph
/// list lookup, a function of the glyph name alone.
#[verifier::external_body]
fn glyph_to_unicode(name: &str) -> (r: Option<String>)
    ensures
        match r {
            Some(s) => glyph_unicode_of(name@) == Some(s@),
            None => glyph_unicode_of(name@) is None,
        },
{
    pdf_encoding::glyphname_to_unicode(name).map(|s| s.to_owned())
}

/// A ToUnicode character map: code-to-text entries with the earliest entry
/// for a code being the one that counts.
#[derive(Clone, Debug)]
pub struct CMapTable {
    pub entries: Vec<(u32, String)>,
}

impl CMapTable {
    /// First entry for `code`, if any.
    pub open spec fn spec_get(entries: Seq<(u32, String)>, code: u32) -> Option<Seq<char>>
        decreases entries.len(),
    {
        if entries.len() == 0 {
            None
        } else if entries[0].0 == code {
            Some(entries[0].1@)
        } else {
            Self::spec_get(entries.drop_first(), code)
        }
    }

    /// The text this map assigns to a code, if any.
    pub fn get(&self, code: u32) -> (r: Option<&String>)
        ensures
            match r {
                Some(s) => Self::spec_get(self.entries@, code) == Some(s@),
                None => Self::spec_get(self.entries@, code) is None,
            },
    {
        let n = self.entries.len();
        assert(self.entries@.skip(0) =~= self.entries@);
        for i in 0..n
            invariant
                n == self.entries@.len(),
                Self::spec_get(self.entries@, code) == Self::spec_get(
                    self.entries@.skip(i as int),
                    code,
                ),
        {
            let ghost pre = self.entries@.skip(i as int);
            assert(pre[0] == self.entries@[i as int]);
            if self.entries[i].0 == code {
                return Some(&self.entries[i].1);
            }
            assert(pre.drop_first() =~= self.entries@.skip(i + 1));
        }
        assert(self.entries@.skip(n as int).len() == 0);
        None
    }
}

/// How the bytes drawn with one font are turned into Unicode.
#[derive(Clone, Debug)]
pub enum FontEncodingStrategy {
    /// A ToUnicode CMap declared by the font.
    IdentityCMap { cmap: CMapTable },
    /// A recognized base encoding with per-byte glyph-name overrides.
    DifferenceMap { base: BaseEncodingKind, differences: Vec<(u8, String)> },
    /// No declared mapping: UTF-16BE behind a byte-order mark, else UTF-8.
    RawUtf16Be,
    /// The font is not decodable; its text is dropped without an error.
    NotDecodable,
}

/// A font's name together with its decoding strategy.
#[derive(Clone, Debug)]
pub struct FontInfo {
    pub name: String,
    pub strategy: FontEncodingStrategy,
}

/// Whether the font name carries the CJK heuristic tag, which switches the
/// CMap decoder to two-byte codes.
pub open spec fn spec_is_gbk(name: Seq<char>) -> bool {
    exists|i: int|
        0 <= i && i + 3 <= name.len() && #[trigger] name[i] == 'G' && name[i + 1] == 'B'
            && name[i + 2] == 'K'
}

/// Whether the name contains the three-letter tag "GBK".
pub fn contains_gbk(name: &str) -> (r: bool)
    ensures
        r == spec_is_gbk(name@),
{
    let n = name.unicode_len();
    if n < 3 {
        return false;
    }
    for i in 0..n - 2
        invariant
            n == name@.len(),
            3 <= n,
            forall|j: int|
                0 <= j < i ==> !(#[trigger] name@[j] == 'G' && name@[j + 1] == 'B' && name@[j + 2]
                    == 'K'),
    {
        if name.get_char(i) == 'G' && name.get_char(i + 1) == 'B' && name.get_char(i + 2) == 'K' {
            return true;
        }
    }
    false
}

/// The byte string opens with the UTF-16BE byte-order mark.
pub open spec fn spec_has_bom(data: Seq<u8>) -> bool {
    data.len() >= 2 && data[0] == 0xFEu8 && data[1] == 0xFFu8
}

/// First override entry for byte `b`, giving a glyph name.
pub open spec fn spec_diff_lookup(diffs: Seq<(u8, String)>, b: u8) -> Option<Seq<char>>
    decreases diffs.len(),
{
    if diffs.len() == 0 {
        None
    } else if diffs[0].0 == b {
        Some(diffs[0].1@)
    } else {
        spec_diff_lookup(diffs.drop_first(), b)
    }
}

/// What one byte contributes under a difference map: the override's glyph
/// first, the base table second, nothing when both miss.
pub open spec fn spec_diff_char(base: BaseEncodingKind, diffs: Seq<(u8, String)>, b: u8) -> Seq<
    char,
> {
    match spec_diff_lookup(diffs, b) {
        Some(name) => match glyph_unicode_of(name) {
            Some(s) => s,
            None => seq![],
        },
        None => match base_glyph_of(base_tag(base), b) {
            Some(c) => seq![c],
            None => seq![],
        },
    }
}

/// Difference-map decoding: every byte looked up independently.
pub open spec fn spec_decode_diff(
    base: BaseEncodingKind,
    diffs: Seq<(u8, String)>,
    data: Seq<u8>,
) -> Seq<char>
    decreases data.len(),
{
    if data.len() == 0 {
        seq![]
    } else {
        spec_diff_char(base, diffs, data[0]) + spec_decode_diff(base, diffs, data.drop_first())
    }
}

/// What one CMap code contributes: its mapping, or nothing.
pub open spec fn spec_cmap_char(entries: Seq<(u32, String)>, code: u32) -> Seq<char> {
    match CMapTable::spec_get(entries, code) {
        Some(s) => s,
        None => seq![],
    }
}

/// CMap decoding over two-byte big-endian codes, consumed two at a time; a
/// trailing odd byte is dropped.
pub open spec fn spec_decode_cmap_pairs(entries: Seq<(u32, String)>, data: Seq<u8>) -> Seq<char>
    decreases data.len(),
{
    if data.len() < 2 {
        seq![]
    } else {
        spec_cmap_char(entries, (data[0] as u32 * 256 + data[1] as u32) as u32)
            + spec_decode_cmap_pairs(entries, data.skip(2))
    }
}

/// CMap decoding over single-byte codes.
pub open spec fn spec_decode_cmap_singles(entries: Seq<(u32, String)>, data: Seq<u8>) -> Seq<char>
    decreases data.len(),
{
    if data.len() == 0 {
        seq![]
    } else {
        spec_cmap_char(entries, data[0] as u32) + spec_decode_cmap_singles(
            entries,
            data.drop_first(),
        )
    }
}

/// CMap decoding: the two-byte soft-hyphen sentinel decodes to a hyphen;
/// a byte-order mark or the CJK tag switches to two-byte codes; otherwise
/// every byte is an independent code.
pub open spec fn spec_decode_cmap(entries: Seq<(u32, String)>, gbk: bool, data: Seq<u8>) -> Seq<
    char,
> {
    if data == seq![0x10u8, 0x28u8] {
        seq!['-']
    } else if gbk || spec_has_bom(data) {
        spec_decode_cmap_pairs(entries, data)
    } else {
        spec_decode_cmap_singles(entries, data)
    }
}

/// UTF-16BE decoding of the bytes after the byte-order mark: fails on an
/// odd tail or an unpaired/invalid surrogate.
pub open spec fn spec_utf16be(data: Seq<u8>) -> Result<Seq<char>, TextDecodeError>
    decreases data.len(),
{
    if data.len() == 0 {
        Ok(seq![])
    } else if data.len() == 1 {
        Err(TextDecodeError)
    } else {
        let u = data[0] as int * 256 + data[1] as int;
        if 0xD800 <= u < 0xDC00 {
            if data.len() < 4 {
                Err(TextDecodeError)
            } else {
                let v = data[2] as int * 256 + data[3] as int;
                if 0xDC00 <= v < 0xE000 {
                    let cp = 0x10000 + (u - 0xD800) * 0x400 + (v - 0xDC00);
                    match spec_utf16be(data.skip(4)) {
                        Ok(rest) => Ok(seq![(cp as u32) as char] + rest),
                        Err(e) => Err(e),
                    }
                } else {
                    Err(TextDecodeError)
                }
            }
        } else if 0xDC00 <= u < 0xE000 {
            Err(TextDecodeError)
        } else {
            match spec_utf16be(data.skip(2)) {
                Ok(rest) => Ok(seq![(u as u32) as char] + rest),
                Err(e) => Err(e),
            }
        }
    }
}

/// Raw decoding: UTF-16BE when the byte-order mark leads, else UTF-8.
pub open spec fn spec_decode_raw(data: Seq<u8>) -> Result<Seq<char>, TextDecodeError> {
    if spec_has_bom(data) {
        spec_utf16be(data.skip(2))
    } else if valid_utf8(data) {
        Ok(decode_utf8(data))
    } else {
        Err(TextDecodeError)
    }
}

/// What a font's strategy makes of a byte string.
pub open spec fn spec_decode(f: FontInfo, data: Seq<u8>) -> Result<Seq<char>, TextDecodeError> {
    match f.strategy {
        FontEncodingStrategy::IdentityCMap { cmap } => Ok(
            spec_decode_cmap(cmap.entries@, spec_is_gbk(f.name@), data),
        ),
        FontEncodingStrategy::DifferenceMap { base, differences } => Ok(
            spec_decode_diff(base, differences@, data),
        ),
        FontEncodingStrategy::RawUtf16Be => spec_decode_raw(data),
        FontEncodingStrategy::NotDecodable => Ok(seq![]),
    }
}

fn diff_lookup<'a>(diffs: &'a Vec<(u8, String)>, b: u8) -> (r: Option<&'a String>)
    ensures
        match r {
            Some(s) => spec_diff_lookup(diffs@, b) == Some(s@),
            None => spec_diff_lookup(diffs@, b) is None,
        },
{
    let n = diffs.len();
    assert(diffs@.skip(0) =~= diffs@);
    for i in 0..n
        invariant
            n == diffs@.len(),
            spec_diff_lookup(diffs@, b) == spec_diff_lookup(diffs@.skip(i as int), b),
    {
        let ghost pre = diffs@.skip(i as int);
        assert(pre[0] == diffs@[i as int]);
        if diffs[i].0 == b {
            return Some(&diffs[i].1);
        }
        assert(pre.drop_first() =~= diffs@.skip(i + 1));
    }
    assert(diffs@.skip(n as int).len() == 0);
    None
}

fn decode_diff_chars(
    base: BaseEncodingKind,
    diffs: &Vec<(u8, String)>,
    data: &[u8],
) -> (r: Vec<char>)
    ensures
        r@ == spec_decode_diff(base, diffs@, data@),
{
    let mut out: Vec<char> = Vec::new();
    let n = data.len();
    assert(data@.skip(0) =~= data@);
    for i in 0..n
        invariant
            n == data@.len(),
            spec_decode_diff(base, diffs@, data@) == out@ + spec_decode_diff(
                base,
                diffs@,
                data@.skip(i as int),
            ),
    {
        let ghost pre = data@.skip(i as int);
        let ghost out0 = out@;
        proof {
            assert(pre[0] == data@[i as int]);
            assert(pre.drop_first() =~= data@.skip(i + 1));
        }
        let b = data[i];
        match diff_lookup(diffs, b) {
            Some(name) => match glyph_to_unicode(name.as_str()) {
                Some(s) => push_str_chars(&mut out, s.as_str()),
                None => (),
            },
            None => match base_forward_get(base, b) {
                Some(c) => out.push(c),
                None => (),
            },
        }
        proof {
            assert(out@ =~= out0 + spec_diff_char(base, diffs@, b));
            assert(spec_decode_diff(base, diffs@, pre) == spec_diff_char(base, diffs@, b)
                + spec_decode_diff(base, diffs@, data@.skip(i + 1)));
            assert(out@ + spec_decode_diff(base, diffs@, data@.skip(i + 1)) =~= out0
                + spec_decode_diff(base, diffs@, pre));
        }
    }
    proof {
        assert(data@.skip(n as int).len() == 0);
        assert(out@ =~= out@ + spec_decode_diff(base, diffs@, data@.skip(n as int)));
    }
    out
}

fn decode_cmap_pairs_chars(cmap: &CMapTable, data: &[u8]) -> (r: Vec<char>)
    ensures
        r@ == spec_decode_cmap_pairs(cmap.entries@, data@),
{
    let mut out: Vec<char> = Vec::new();
    let n = data.len();
    let mut i: usize = 0;
    assert(data@.skip(0) =~= data@);
    while n >= 2 && i <= n - 2
        invariant
            n == data@.len(),
            i <= n,
            spec_decode_cmap_pairs(cmap.entries@, data@) == out@ + spec_decode_cmap_pairs(
                cmap.entries@,
                data@.skip(i as int),
            ),
        decreases n - i,
    {
        let ghost pre = data@.skip(i as int);
        let ghost out0 = out@;
        proof {
            assert(pre[0] == data@[i as int]);
            assert(pre[1] == data@[i + 1]);
            assert(pre.skip(2) =~= data@.skip(i + 2));
        }
        let code: u32 = (data[i] as u32) * 256 + (data[i + 1] as u32);
        match cmap.get(code) {
            Some(s) => push_str_chars(&mut out, s.as_str()),
            None => (),
        }
        proof {
            assert(out@ =~= out0 + spec_cmap_char(cmap.entries@, code));
            assert(spec_decode_cmap_pairs(cmap.entries@, pre) == spec_cmap_char(
                cmap.entries@,
                code,
            ) + spec_decode_cmap_pairs(cmap.entries@, data@.skip(i + 2)));
            assert(out@ + spec_decode_cmap_pairs(cmap.entries@, data@.skip(i + 2)) =~= out0
                + spec_decode_cmap_pairs(cmap.entries@, pre));
        }
        i = i + 2;
    }
    proof {
        assert(data@.skip(i as int).len() < 2);
        assert(out@ =~= out@ + spec_decode_cmap_pairs(cmap.entries@, data@.skip(i as int)));
    }
    out
}

fn decode_cmap_singles_chars(cmap: &CMapTable, data: &[u8]) -> (r: Vec<char>)
    ensures
        r@ == spec_decode_cmap_singles(cmap.entries@, data@),
{
    let mut out: Vec<char> = Vec::new();
    let n = data.len();
    assert(data@.skip(0) =~= data@);
    for i in 0..n
        invariant
            n == data@.len(),
            spec_decode_cmap_singles(cmap.entries@, data@) == out@ + spec_decode_cmap_singles(
                cmap.entries@,
                data@.skip(i as int),
            ),
    {
        let ghost pre = data@.skip(i as int);
        let ghost out0 = out@;
        proof {
            assert(pre[0] == data@[i as int]);
            assert(pre.drop_first() =~= data@.skip(i + 1));
        }
        let code: u32 = data[i] as u32;
        match cmap.get(code) {
            Some(s) => push_str_chars(&mut out, s.as_str()),
            None => (),
        }
        proof {
            assert(out@ =~= out0 + spec_cmap_char(cmap.entries@, code));
            assert(spec_decode_cmap_singles(cmap.entries@, pre) == spec_cmap_char(
                cmap.entries@,
                code,
            ) + spec_decode_cmap_singles(cmap.entries@, data@.skip(i + 1)));
            assert(out@ + spec_decode_cmap_singles(cmap.entries@, data@.skip(i + 1)) =~= out0
                + spec_decode_cmap_singles(cmap.entries@, pre));
        }
    }
    proof {
        assert(data@.skip(n as int).len() == 0);
        assert(out@ =~= out@ + spec_decode_cmap_singles(cmap.entries@, data@.skip(n as int)));
    }
    out
}

fn decode_cmap_chars(cmap: &CMapTable, gbk: bool, data: &[u8]) -> (r: Vec<char>)
    ensures
        r@ == spec_decode_cmap(cmap.entries@, gbk, data@),
{
    let sentinel = data.len() == 2 && data[0] == 0x10 && data[1] == 0x28;
    proof {
        if sentinel {
            assert(data@ =~= seq![0x10u8, 0x28u8]);
        } else {
            assert(!(data@ == seq![0x10u8, 0x28u8])) by {
                if data@ == seq![0x10u8, 0x28u8] {
                    assert(data@.len() == 2);
                    assert(data@[0] == 0x10u8);
                    assert(data@[1] == 0x28u8);
                }
            }
        }
    }
    if sentinel {
        let mut out: Vec<char> = Vec::new();
        out.push('-');
        proof {
            assert(out@ =~= seq!['-']);
        }
        out
    } else if gbk || (data.len() >= 2 && data[0] == 0xFE && data[1] == 0xFF) {
        decode_cmap_pairs_chars(cmap, data)
    } else {
        decode_cmap_singles_chars(cmap, data)
    }
}

fn utf16be_chars(data: &[u8], from: usize) -> (r: Result<Vec<char>, TextDecodeError>)
    requires
        from <= data@.len(),
    ensures
        match r {
            Ok(v) => spec_utf16be(data@.skip(from as int)) == Ok::<Seq<char>, TextDecodeError>(v@),
            Err(e) => spec_utf16be(data@.skip(from as int)) == Err::<Seq<char>, TextDecodeError>(
                e,
            ),
        },
{
    let ghost whole = data@.skip(from as int);
    let mut out: Vec<char> = Vec::new();
    let n = data.len();
    let mut i = from;
    while n >= 2 && i <= n - 2
        invariant
            n == data@.len(),
            from <= i <= n,
            whole == data@.skip(from as int),
            forall|rest: Seq<char>|
                spec_utf16be(data@.skip(i as int)) == Ok::<Seq<char>, TextDecodeError>(rest)
                    ==> spec_utf16be(whole) == Ok::<Seq<char>, TextDecodeError>(out@ + rest),
            forall|e: TextDecodeError|
                spec_utf16be(data@.skip(i as int)) == Err::<Seq<char>, TextDecodeError>(e)
                    ==> spec_utf16be(whole) == Err::<Seq<char>, TextDecodeError>(e),
        decreases n - i,
    {
        let ghost pre = data@.skip(i as int);
        let ghost out0 = out@;
        proof {
            assert(pre[0] == data@[i as int]);
            assert(pre[1] == data@[i + 1]);
            assert(pre.len() >= 2);
        }
        let u: u32 = (data[i] as u32) * 256 + (data[i + 1] as u32);
        if 0xD800 <= u && u < 0xDC00 {
            if n - i < 4 {
                proof {
                    assert(pre.len() < 4);
                }
                return Err(TextDecodeError);
            }
            proof {
                assert(pre[2] == data@[i + 2]);
                assert(pre[3] == data@[i + 3]);
                assert(pre.skip(4) =~= data@.skip(i + 4));
            }
            let v: u32 = (data[i + 2] as u32) * 256 + (data[i + 3] as u32);
            if 0xDC00 <= v && v < 0xE000 {
                let cp: u32 = 0x10000 + (u - 0xD800) * 0x400 + (v - 0xDC00);
                match char_from_u32(cp) {
                    Some(c) => {
                        out.push(c);
                        proof {
                            vstd::utf8::char_u32_cast(c, cp);
                            assert(out@ =~= out0 + seq![(cp as u32) as char]);
                            assert(forall|rest: Seq<char>|
                                out0 + (seq![(cp as u32) as char] + rest) =~= out@ + rest);
                        }
                        i = i + 4;
                    },
                    None => {
                        proof {
                            assert(is_scalar(cp));
                        }
                        return Err(TextDecodeError);
                    },
                }
            } else {
                return Err(TextDecodeError);
            }
        } else if 0xDC00 <= u && u < 0xE000 {
            return Err(TextDecodeError);
        } else {
            proof {
                assert(pre.skip(2) =~= data@.skip(i + 2));
            }
            match char_from_u32(u) {
                Some(c) => {
                    out.push(c);
                    proof {
                        vstd::utf8::char_u32_cast(c, u);
                        assert(out@ =~= out0 + seq![(u as u32) as char]);
                        assert(forall|rest: Seq<char>|
                            out0 + (seq![(u as u32) as char] + rest) =~= out@ + rest);
                    }
                    i = i + 2;
                },
                None => {
                    proof {
                        assert(is_scalar(u));
                    }
                    return Err(TextDecodeError);
                },
            }
        }
    }
    if i == n {
        proof {
            assert(data@.skip(i as int).len() == 0);
            assert(out@ + Seq::<char>::empty() =~= out@);
        }
        Ok(out)
    } else {
        proof {
            assert(data@.skip(i as int).len() == 1);
        }
        Err(TextDecodeError)
    }
}

fn decode_raw_chars(data: &[u8]) -> (r: Result<Vec<char>, TextDecodeError>)
    ensures
        match r {
            Ok(v) => spec_decode_raw(data@) == Ok::<Seq<char>, TextDecodeError>(v@),
            Err(e) => spec_decode_raw(data@) == Err::<Seq<char>, TextDecodeError>(e),
        },
{
    if data.len() >= 2 && data[0] == 0xFE && data[1] == 0xFF {
        utf16be_chars(data, 2)
    } else {
        match utf8_decode(data) {
            Some(s) => {
                let mut out: Vec<char> = Vec::new();
                push_str_chars(&mut out, s.as_str());
                proof {
                    assert(out@ =~= s@);
                }
                Ok(out)
            },
            None => Err(TextDecodeError),
        }
    }
}

/// Decode a show-text byte string into characters according to the
/// font's strategy.
pub fn decode_chars(f: &FontInfo, data: &[u8]) -> (r: Result<Vec<char>, TextDecodeError>)
    ensures
        match r {
            Ok(v) => spec_decode(*f, data@) == Ok::<Seq<char>, TextDecodeError>(v@),
            Err(e) => spec_decode(*f, data@) == Err::<Seq<char>, TextDecodeError>(e),
        },
{
    match &f.strategy {
        FontEncodingStrategy::IdentityCMap { cmap } => {
            let gbk = contains_gbk(f.name.as_str());
            Ok(decode_cmap_chars(cmap, gbk, data))
        },
        FontEncodingStrategy::DifferenceMap { base, differences } => Ok(
            decode_diff_chars(*base, differences, data),
        ),
        FontEncodingStrategy::RawUtf16Be => decode_raw_chars(data),
        FontEncodingStrategy::NotDecodable => Ok(Vec::new()),
    }
}

impl FontInfo {
    /// Decode `data` with this font's strategy, appending the characters
    /// to `out`. On a decode failure `out` is left unchanged.
    pub fn decode(&self, data: &[u8], out: &mut String) -> (r: Result<(), TextDecodeError>)
        ensures
            match spec_decode(*self, data@) {
                Ok(s) => r == Ok::<(), TextDecodeError>(()) && final(out)@ == old(out)@ + s,
                Err(e) => r == Err::<(), TextDecodeError>(e) && final(out)@ == old(out)@,
            },
    {
        match decode_chars(self, data) {
            Ok(v) => {
                crate::text::append_chars_to_string(out, &v);
                Ok(())
            },
            Err(e) => Err(e),
        }
    }
}

} // verus!
