//! The per-page font cache: every font a page declares, mapped to the
//! decoding strategy chosen by the declared-encoding precedence.

use vstd::prelude::*;
use crate::encoding::BaseEncodingKind;
use crate::encoding::CMapTable;
use crate::encoding::FontEncodingStrategy;
use crate::encoding::FontInfo;
use crate::text::str_eq;

verus! {

/// The base encoding a font's simple encoding declares.
#[derive(Clone, Copy, PartialEq, Eq, Structural, Debug)]
pub enum DeclaredBaseEncoding {
    Standard,
    Symbol,
    WinAnsi,
    MacRoman,
    /// The encoding names no base at all.
    NoBase,
    /// An explicit base encoding this crate does not recognize; the font
    /// is skipped softly, never a hard error.
    Unrecognized,
}

/// A font's declared simple encoding.
#[derive(Debug)]
pub struct EncodingDesc {
    pub base: DeclaredBaseEncoding,
    pub differences: Vec<(u8, String)>,
}

/// What a font dictionary declares, as handed over by the container
/// parser: its own name, its ToUnicode CMap and its encoding.
#[derive(Debug)]
pub struct FontDesc {
    pub name: Option<String>,
    pub to_unicode: Option<CMapTable>,
    pub encoding: Option<EncodingDesc>,
}

/// A graphics-state resource entry: optionally a font with a size, the
/// size in the same integer units as every other coordinate.
#[derive(Debug)]
pub struct GraphicsStateResource {
    pub font: Option<(FontDesc, i64)>,
}

/// A page's declared resources.
#[derive(Debug)]
pub struct Resources {
    pub fonts: Vec<(String, FontDesc)>,
    pub graphics_states: Vec<(String, GraphicsStateResource)>,
}

/// The strategy the precedence rules pick for a font dictionary: the
/// ToUnicode CMap first; else a recognized base encoding with overrides; a
/// missing or unrecognized base makes the font undecodable; a font that
/// declares nothing is not cached at all (`None`), so lookups fall back to
/// the raw default.
pub open spec fn spec_strategy_of(desc: FontDesc) -> Option<FontEncodingStrategy> {
    match desc.to_unicode {
        Some(cmap) => Some(FontEncodingStrategy::IdentityCMap { cmap }),
        None => match desc.encoding {
            Some(e) => match e.base {
                DeclaredBaseEncoding::Standard => Some(
                    FontEncodingStrategy::DifferenceMap {
                        base: BaseEncodingKind::Standard,
                        differences: e.differences,
                    },
                ),
                DeclaredBaseEncoding::Symbol => Some(
                    FontEncodingStrategy::DifferenceMap {
                        base: BaseEncodingKind::Symbol,
                        differences: e.differences,
                    },
                ),
                DeclaredBaseEncoding::WinAnsi => Some(
                    FontEncodingStrategy::DifferenceMap {
                        base: BaseEncodingKind::WinAnsi,
                        differences: e.differences,
                    },
                ),
                DeclaredBaseEncoding::MacRoman => Some(
                    FontEncodingStrategy::DifferenceMap {
                        base: BaseEncodingKind::MacRoman,
                        differences: e.differences,
                    },
                ),
                DeclaredBaseEncoding::NoBase => Some(FontEncodingStrategy::NotDecodable),
                DeclaredBaseEncoding::Unrecognized => Some(FontEncodingStrategy::NotDecodable),
            },
            None => None,
        },
    }
}

/// Insert-or-replace keyed by the name's characters; a replaced entry
/// keeps its key, as a map insert would.
pub open spec fn spec_put(
    s: Seq<(String, FontInfo)>,
    key: String,
    info: FontInfo,
) -> Seq<(String, FontInfo)>
    decreases s.len(),
{
    if s.len() == 0 {
        seq![(key, info)]
    } else if s[0].0@ == key@ {
        seq![(s[0].0, info)] + s.drop_first()
    } else {
        seq![s[0]] + spec_put(s.drop_first(), key, info)
    }
}

/// What adding one font dictionary does to the cache: nothing for a
/// nameless font or one that declares no mapping; otherwise the chosen
/// strategy is stored under the given key.
pub open spec fn spec_add_font(
    fonts: Seq<(String, FontInfo)>,
    key: String,
    desc: FontDesc,
) -> Seq<(String, FontInfo)> {
    match desc.name {
        None => fonts,
        Some(n) => match spec_strategy_of(desc) {
            None => fonts,
            Some(st) => spec_put(fonts, key, FontInfo { name: n, strategy: st }),
        },
    }
}

/// First cached font under a name.
pub open spec fn spec_font_lookup(s: Seq<(String, FontInfo)>, name: Seq<char>) -> Option<FontInfo>
    decreases s.len(),
{
    if s.len() == 0 {
        None
    } else if s[0].0@ == name {
        Some(s[0].1)
    } else {
        spec_font_lookup(s.drop_first(), name)
    }
}

/// Index of the first cached font under a name.
pub open spec fn spec_font_index(s: Seq<(String, FontInfo)>, name: Seq<char>) -> Option<int>
    decreases s.len(),
{
    if s.len() == 0 {
        None
    } else if s[0].0@ == name {
        Some(0)
    } else {
        match spec_font_index(s.drop_first(), name) {
            Some(i) => Some(i + 1),
            None => None,
        }
    }
}

/// The default strategy of a font the cache does not know: raw
/// passthrough under an empty name.
pub open spec fn is_default_font(f: FontInfo) -> bool {
    f.name@ == Seq::<char>::empty() && f.strategy == FontEncodingStrategy::RawUtf16Be
}

proof fn lemma_put_found(s: Seq<(String, FontInfo)>, key: String, info: FontInfo, i: int)
    requires
        0 <= i < s.len(),
        s[i].0@ == key@,
        forall|j: int| 0 <= j < i ==> (#[trigger] s[j].0)@ != key@,
    ensures
        spec_put(s, key, info) == s.update(i, (s[i].0, info)),
    decreases i,
{
    if i == 0 {
        assert(spec_put(s, key, info) =~= s.update(0, (s[0].0, info)));
    } else {
        assert(s[0].0@ != key@);
        assert(s.drop_first()[i - 1] == s[i]);
        assert(forall|j: int|
            0 <= j < i - 1 ==> (#[trigger] s.drop_first()[j].0)@ != key@ && s.drop_first()[j]
                == s[j + 1]);
        lemma_put_found(s.drop_first(), key, info, i - 1);
        assert(spec_put(s, key, info) =~= s.update(i, (s[i].0, info)));
    }
}

proof fn lemma_put_missing(s: Seq<(String, FontInfo)>, key: String, info: FontInfo)
    requires
        forall|j: int| 0 <= j < s.len() ==> (#[trigger] s[j].0)@ != key@,
    ensures
        spec_put(s, key, info) == s + seq![(key, info)],
    decreases s.len(),
{
    if s.len() == 0 {
        assert(spec_put(s, key, info) =~= s + seq![(key, info)]);
    } else {
        assert(forall|j: int|
            0 <= j < s.drop_first().len() ==> (#[trigger] s.drop_first()[j].0)@ != key@ && s
                .drop_first()[j] == s[j + 1]);
        lemma_put_missing(s.drop_first(), key, info);
        assert(spec_put(s, key, info) =~= s + seq![(key, info)]);
    }
}

/// Every font of one page, keyed by resource name, with its decoding
/// strategy; built once per page and then read-only.
pub struct FontCache {
    pub fonts: Vec<(String, FontInfo)>,
    pub graphics_fonts: Vec<(String, Option<(Option<String>, i64)>)>,
    pub default_font: FontInfo,
}

impl FontCache {
    fn put(&mut self, key: String, info: FontInfo)
        ensures
            final(self).fonts@ == spec_put(old(self).fonts@, key, info),
            final(self).graphics_fonts == old(self).graphics_fonts,
            final(self).default_font == old(self).default_font,
    {
        let n = self.fonts.len();
        for i in 0..n
            invariant
                n == self.fonts@.len(),
                *self == *old(self),
                forall|j: int| 0 <= j < i ==> (#[trigger] self.fonts@[j].0)@ != key@,
        {
            if str_eq(self.fonts[i].0.as_str(), key.as_str()) {
                let k = self.fonts[i].0.clone();
                let ghost s0 = self.fonts@;
                self.fonts.set(i, (k, info));
                proof {
                    lemma_put_found(s0, key, info, i as int);
                }
                return ;
            }
        }
        let ghost s0 = self.fonts@;
        self.fonts.push((key, info));
        proof {
            lemma_put_missing(s0, key, info);
            assert(self.fonts@ =~= s0 + seq![(key, info)]);
        }
    }

    /// Decide a strategy for one font dictionary and store it under `key`.
    pub fn add_font(&mut self, key: String, desc: FontDesc)
        ensures
            final(self).fonts@ == spec_add_font(old(self).fonts@, key, desc),
            final(self).graphics_fonts == old(self).graphics_fonts,
            final(self).default_font == old(self).default_font,
    {
        let ghost gdesc = desc;
        let FontDesc { name, to_unicode, encoding } = desc;
        let fname = match name {
            Some(n) => n,
            None => {
                return ;
            },
        };
        let strategy = match to_unicode {
            Some(cmap) => FontEncodingStrategy::IdentityCMap { cmap },
            None => match encoding {
                Some(e) => match e.base {
                    DeclaredBaseEncoding::Standard => FontEncodingStrategy::DifferenceMap {
                        base: BaseEncodingKind::Standard,
                        differences: e.differences,
                    },
                    DeclaredBaseEncoding::Symbol => FontEncodingStrategy::DifferenceMap {
                        base: BaseEncodingKind::Symbol,
                        differences: e.differences,
                    },
                    DeclaredBaseEncoding::WinAnsi => FontEncodingStrategy::DifferenceMap {
                        base: BaseEncodingKind::WinAnsi,
                        differences: e.differences,
                    },
                    DeclaredBaseEncoding::MacRoman => FontEncodingStrategy::DifferenceMap {
                        base: BaseEncodingKind::MacRoman,
                        differences: e.differences,
                    },
                    DeclaredBaseEncoding::NoBase => FontEncodingStrategy::NotDecodable,
                    DeclaredBaseEncoding::Unrecognized => FontEncodingStrategy::NotDecodable,
                },
                None => {
                    return ;
                },
            },
        };
        self.put(key, FontInfo { name: fname, strategy });
    }
}

/// Fold the page's resource fonts into the cache, in order.
pub open spec fn spec_add_resource_fonts(
    fonts: Seq<(String, FontInfo)>,
    entries: Seq<(String, FontDesc)>,
) -> Seq<(String, FontInfo)>
    decreases entries.len(),
{
    if entries.len() == 0 {
        fonts
    } else {
        spec_add_resource_fonts(
            spec_add_font(fonts, entries[0].0, entries[0].1),
            entries.drop_first(),
        )
    }
}

/// Fold the fonts referenced from graphics-state entries into the cache,
/// each keyed by the font's own name.
pub open spec fn spec_add_graphics_fonts(
    fonts: Seq<(String, FontInfo)>,
    gs: Seq<(String, GraphicsStateResource)>,
) -> Seq<(String, FontInfo)>
    decreases gs.len(),
{
    if gs.len() == 0 {
        fonts
    } else {
        match gs[0].1.font {
            Some((desc, size)) => match desc.name {
                Some(n) => spec_add_graphics_fonts(spec_add_font(fonts, n, desc), gs.drop_first()),
                None => spec_add_graphics_fonts(fonts, gs.drop_first()),
            },
            None => spec_add_graphics_fonts(fonts, gs.drop_first()),
        }
    }
}

/// The cache a page's resources build: resource fonts first, then the
/// graphics-state fonts.
pub open spec fn spec_cache_fonts(r: Resources) -> Seq<(String, FontInfo)> {
    spec_add_graphics_fonts(
        spec_add_resource_fonts(Seq::<(String, FontInfo)>::empty(), r.fonts@),
        r.graphics_states@,
    )
}

/// What one graphics-state entry contributes to the name-and-size table.
pub open spec fn spec_gs_entry(g: GraphicsStateResource) -> Option<(Option<String>, i64)> {
    match g.font {
        Some((desc, size)) => Some((desc.name, size)),
        None => None,
    }
}

/// The graphics-state table reduced to font names and sizes.
pub open spec fn spec_gs_view(gs: Seq<(String, GraphicsStateResource)>) -> Seq<
    (String, Option<(Option<String>, i64)>),
>
    decreases gs.len(),
{
    if gs.len() == 0 {
        Seq::<(String, Option<(Option<String>, i64)>)>::empty()
    } else {
        seq![(gs[0].0, spec_gs_entry(gs[0].1))] + spec_gs_view(gs.drop_first())
    }
}

/// First graphics-state entry under a name.
pub open spec fn spec_gs_lookup(
    s: Seq<(String, Option<(Option<String>, i64)>)>,
    name: Seq<char>,
) -> Option<Option<(Option<String>, i64)>>
    decreases s.len(),
{
    if s.len() == 0 {
        None
    } else if s[0].0@ == name {
        Some(s[0].1)
    } else {
        spec_gs_lookup(s.drop_first(), name)
    }
}

proof fn lemma_font_index_lookup(s: Seq<(String, FontInfo)>, name: Seq<char>)
    ensures
        match spec_font_index(s, name) {
            Some(i) => 0 <= i < s.len() && s[i].0@ == name && spec_font_lookup(s, name) == Some(
                s[i].1,
            ),
            None => spec_font_lookup(s, name) is None,
        },
    decreases s.len(),
{
    if s.len() == 0 {
    } else if s[0].0@ == name {
    } else {
        lemma_font_index_lookup(s.drop_first(), name);
    }
}

impl FontCache {
    /// An empty cache with the raw default font.
    pub fn empty() -> (r: FontCache)
        ensures
            r.fonts@ == Seq::<(String, FontInfo)>::empty(),
            r.graphics_fonts@ == Seq::<(String, Option<(Option<String>, i64)>)>::empty(),
            is_default_font(r.default_font),
    {
        let r = FontCache {
            fonts: Vec::new(),
            graphics_fonts: Vec::new(),
            default_font: FontInfo {
                name: String::new(),
                strategy: FontEncodingStrategy::RawUtf16Be,
            },
        };
        proof {
            assert(r.default_font.name@ =~= Seq::<char>::empty());
        }
        r
    }

    /// Build the cache of one page: every font of the resource dictionary,
    /// then every font a graphics-state entry references.
    pub fn new(resources: Resources) -> (r: FontCache)
        ensures
            r.fonts@ == spec_cache_fonts(resources),
            r.graphics_fonts@ == spec_gs_view(resources.graphics_states@),
            is_default_font(r.default_font),
    {
        let ghost gres = resources;
        let Resources { mut fonts, mut graphics_states } = resources;
        let mut cache = FontCache::empty();
        while fonts.len() > 0
            invariant
                spec_add_resource_fonts(cache.fonts@, fonts@) == spec_add_resource_fonts(
                    Seq::<(String, FontInfo)>::empty(),
                    gres.fonts@,
                ),
                cache.graphics_fonts@.len() == 0,
                is_default_font(cache.default_font),
            decreases fonts.len(),
        {
            let ghost f0 = fonts@;
            let (name, desc) = fonts.remove(0);
            proof {
                assert(fonts@ =~= f0.drop_first());
            }
            cache.add_font(name, desc);
        }
        proof {
            assert(spec_add_resource_fonts(cache.fonts@, fonts@) == cache.fonts@);
            assert(cache.graphics_fonts@ =~= Seq::<
                (String, Option<(Option<String>, i64)>),
            >::empty());
        }
        while graphics_states.len() > 0
            invariant
                spec_add_graphics_fonts(cache.fonts@, graphics_states@) == spec_cache_fonts(gres),
                cache.graphics_fonts@ + spec_gs_view(graphics_states@) == spec_gs_view(
                    gres.graphics_states@,
                ),
                is_default_font(cache.default_font),
            decreases graphics_states.len(),
        {
            let ghost g0 = graphics_states@;
            let ghost cg0 = cache.graphics_fonts@;
            let (gname, gsres) = graphics_states.remove(0);
            proof {
                assert(graphics_states@ =~= g0.drop_first());
            }
            match gsres.font {
                Some((desc, size)) => {
                    let stored: Option<String> = match &desc.name {
                        Some(n) => Some(n.clone()),
                        None => None,
                    };
                    cache.graphics_fonts.push((gname, Some((stored, size))));
                    let key: Option<String> = match &desc.name {
                        Some(n) => Some(n.clone()),
                        None => None,
                    };
                    match key {
                        Some(k) => cache.add_font(k, desc),
                        None => (),
                    }
                },
                None => {
                    cache.graphics_fonts.push((gname, None));
                },
            }
            proof {
                assert(spec_gs_view(g0) =~= seq![(g0[0].0, spec_gs_entry(g0[0].1))]
                    + spec_gs_view(g0.drop_first()));
                assert(cache.graphics_fonts@ =~= cg0 + seq![(g0[0].0, spec_gs_entry(g0[0].1))]);
                assert(cache.graphics_fonts@ + spec_gs_view(graphics_states@) =~= cg0
                    + spec_gs_view(g0));
            }
        }
        proof {
            assert(spec_add_graphics_fonts(cache.fonts@, graphics_states@) == cache.fonts@);
            assert(cache.graphics_fonts@ =~= cache.graphics_fonts@ + spec_gs_view(
                graphics_states@,
            ));
        }
        cache
    }

    /// Index of the cached font under a resource name, if any.
    pub fn font_index(&self, name: &str) -> (r: Option<usize>)
        ensures
            match r {
                Some(i) => spec_font_index(self.fonts@, name@) == Some(i as int),
                None => spec_font_index(self.fonts@, name@) is None,
            },
    {
        let n = self.fonts.len();
        assert(self.fonts@.skip(0) =~= self.fonts@);
        for i in 0..n
            invariant
                n == self.fonts@.len(),
                match spec_font_index(self.fonts@.skip(i as int), name@) {
                    Some(k) => spec_font_index(self.fonts@, name@) == Some(k + i),
                    None => spec_font_index(self.fonts@, name@) is None,
                },
        {
            let ghost pre = self.fonts@.skip(i as int);
            proof {
                assert(pre[0] == self.fonts@[i as int]);
                assert(pre.drop_first() =~= self.fonts@.skip(i + 1));
            }
            if str_eq(self.fonts[i].0.as_str(), name) {
                return Some(i);
            }
        }
        assert(self.fonts@.skip(n as int).len() == 0);
        None
    }

    /// The cached font under a resource name, or the raw default font for
    /// a name the cache does not know; this lookup never fails.
    pub fn get_by_font_name(&self, name: &str) -> (r: &FontInfo)
        ensures
            match spec_font_lookup(self.fonts@, name@) {
                Some(info) => *r == info,
                None => *r == self.default_font,
            },
    {
        proof {
            lemma_font_index_lookup(self.fonts@, name@);
        }
        match self.font_index(name) {
            Some(i) => &self.fonts[i].1,
            None => &self.default_font,
        }
    }
}

impl FontCache {
    /// The font handle and size a graphics-state entry yields: the index
    /// of the cached font under the entry's font name, or the default
    /// handle when the name is missing or unknown; nothing when the entry
    /// itself is missing or declares no font.
    pub fn gs_handle(&self, name: &str) -> (r: Option<(Option<usize>, i64)>)
        ensures
            match r {
                Some(p) => match spec_gs_lookup(self.graphics_fonts@, name@) {
                    Some(Some(fs)) => p.1 == fs.1 && (match fs.0 {
                        Some(n) => match spec_font_index(self.fonts@, n@) {
                            Some(i) => p.0 == Some(i as usize),
                            None => p.0 is None,
                        },
                        None => p.0 is None,
                    }),
                    _ => false,
                },
                None => !(spec_gs_lookup(self.graphics_fonts@, name@) matches Some(Some(_))),
            },
    {
        let n = self.graphics_fonts.len();
        assert(self.graphics_fonts@.skip(0) =~= self.graphics_fonts@);
        for i in 0..n
            invariant
                n == self.graphics_fonts@.len(),
                spec_gs_lookup(self.graphics_fonts@, name@) == spec_gs_lookup(
                    self.graphics_fonts@.skip(i as int),
                    name@,
                ),
        {
            let ghost pre = self.graphics_fonts@.skip(i as int);
            proof {
                assert(pre[0] == self.graphics_fonts@[i as int]);
                assert(pre.drop_first() =~= self.graphics_fonts@.skip(i + 1));
            }
            if str_eq(self.graphics_fonts[i].0.as_str(), name) {
                match &self.graphics_fonts[i].1 {
                    Some(fs) => {
                        let handle = match &fs.0 {
                            Some(fname) => self.font_index(fname.as_str()),
                            None => None,
                        };
                        return Some((handle, fs.1));
                    },
                    None => {
                        return None;
                    },
                }
            }
        }
        assert(self.graphics_fonts@.skip(n as int).len() == 0);
        None
    }

    /// The font a graphics-state entry names together with its size: the
    /// cached font under the entry's font name, the default font when the
    /// name is missing or unknown, and nothing when the entry itself is
    /// missing or declares no font.
    pub fn get_by_graphic_state_name(&self, name: &str) -> (r: Option<(&FontInfo, i64)>)
        ensures
            match r {
                Some(p) => match spec_gs_lookup(self.graphics_fonts@, name@) {
                    Some(Some(fs)) => p.1 == fs.1 && *p.0 == (match fs.0 {
                        Some(n) => match spec_font_lookup(self.fonts@, n@) {
                            Some(fi) => fi,
                            None => self.default_font,
                        },
                        None => self.default_font,
                    }),
                    _ => false,
                },
                None => !(spec_gs_lookup(self.graphics_fonts@, name@) matches Some(Some(_))),
            },
    {
        let n = self.graphics_fonts.len();
        assert(self.graphics_fonts@.skip(0) =~= self.graphics_fonts@);
        for i in 0..n
            invariant
                n == self.graphics_fonts@.len(),
                spec_gs_lookup(self.graphics_fonts@, name@) == spec_gs_lookup(
                    self.graphics_fonts@.skip(i as int),
                    name@,
                ),
        {
            let ghost pre = self.graphics_fonts@.skip(i as int);
            proof {
                assert(pre[0] == self.graphics_fonts@[i as int]);
                assert(pre.drop_first() =~= self.graphics_fonts@.skip(i + 1));
            }
            if str_eq(self.graphics_fonts[i].0.as_str(), name) {
                match &self.graphics_fonts[i].1 {
                    Some(fs) => {
                        let info = match &fs.0 {
                            Some(fname) => self.get_by_font_name(fname.as_str()),
                            None => &self.default_font,
                        };
                        return Some((info, fs.1));
                    },
                    None => {
                        return None;
                    },
                }
            }
        }
        assert(self.graphics_fonts@.skip(n as int).len() == 0);
        None
    }
}

} // verus!
