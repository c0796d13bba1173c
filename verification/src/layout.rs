//! The layout reconstructor: positioned decoded fragments merged into
//! lines and words by geometric thresholds, in a streaming mode driven by
//! the state tracker and in a batch mode over sorted spans.

use vstd::prelude::*;
use vstd::string::*;
use crate::encoding::FontInfo;
use crate::encoding::TextDecodeError;
use crate::encoding::spec_decode;
use crate::encoding::decode_chars;
use crate::fonts::FontCache;
use crate::state::COORD_LIMIT;
use crate::state::Op;
use crate::state::TextItem;
use crate::state::TextState;
use crate::state::apply_op;
use crate::state::clamp_coord;
use crate::state::in_range;
use crate::state::lemma_mul_bound;
use crate::state::spec_apply_op;
use crate::state::spec_clamp;
use crate::state::spec_default_state;
use crate::state::wf_state;
use crate::text::char_is_ascii_alphanumeric;
use crate::text::chars_to_string;
use crate::text::spec_is_ascii_alphanumeric;

verus! {

/// The tunable thresholds of the reconstructor, in the same integer units
/// as every coordinate. They are calibration, not physics.
#[derive(Clone, Copy, PartialEq, Eq, Structural, Debug)]
pub struct LayoutConfig {
    /// An adjusted-show spacing magnitude above this, scaled by the
    /// horizontal text scale, becomes one inserted space.
    pub word_gap: i64,
    /// A horizontal move beyond this, scaled by the horizontal text
    /// scale, separates words.
    pub x_tolerance: i64,
    /// A vertical move beyond this, scaled by the vertical text scale,
    /// breaks the line.
    pub y_tolerance: i64,
    /// A leftward jump beyond this breaks the line in batch mode.
    pub leftward_jump: i64,
}

pub open spec fn wf_config(c: LayoutConfig) -> bool {
    0 <= c.word_gap <= COORD_LIMIT && 0 <= c.x_tolerance <= COORD_LIMIT && 0 <= c.y_tolerance
        <= COORD_LIMIT && 0 <= c.leftward_jump <= COORD_LIMIT
}

impl LayoutConfig {
    /// The calibrated defaults.
    pub fn default_config() -> (r: LayoutConfig)
        ensures
            r == (LayoutConfig { word_gap: 50i64, x_tolerance: 2i64, y_tolerance: 2i64, leftward_jump: 10i64 }),
            wf_config(r),
    {
        LayoutConfig { word_gap: 50, x_tolerance: 2, y_tolerance: 2, leftward_jump: 10 }
    }
}

/// The font a state's handle stands for.
pub open spec fn spec_font_of(
    fonts: Seq<(String, FontInfo)>,
    dflt: FontInfo,
    h: Option<usize>,
) -> FontInfo {
    match h {
        Some(i) => if i < fonts.len() {
            fonts[i as int].1
        } else {
            dflt
        },
        None => dflt,
    }
}

fn font_of<'a>(cache: &'a FontCache, s: &TextState) -> (r: &'a FontInfo)
    ensures
        *r == spec_font_of(cache.fonts@, cache.default_font, s.font),
{
    match s.font {
        Some(i) => if i < cache.fonts.len() {
            &cache.fonts[i].1
        } else {
            &cache.default_font
        },
        None => &cache.default_font,
    }
}

pub open spec fn spec_abs(x: int) -> int {
    if x < 0 {
        -x
    } else {
        x
    }
}

/// The word one adjusted-show operator produces: its byte strings
/// decoded in order, and each spacing adjustment whose clamped magnitude
/// exceeds the scaled word-gap threshold turned into a single space,
/// never doubling a space the decoder already produced.
pub open spec fn spec_adjusted_from(
    f: FontInfo,
    xf: int,
    cfg: LayoutConfig,
    items: Seq<TextItem>,
    acc: Seq<char>,
) -> Result<Seq<char>, TextDecodeError>
    decreases items.len(),
{
    if items.len() == 0 {
        Ok(acc)
    } else {
        match items[0] {
            TextItem::Text(t) => match spec_decode(f, t@) {
                Ok(s) => spec_adjusted_from(f, xf, cfg, items.drop_first(), acc + s),
                Err(e) => Err(e),
            },
            TextItem::Spacing(sp) => if spec_abs(spec_clamp(sp as int)) > cfg.word_gap * xf {
                if acc.len() == 0 || acc.last() != ' ' {
                    spec_adjusted_from(f, xf, cfg, items.drop_first(), acc.push(' '))
                } else {
                    spec_adjusted_from(f, xf, cfg, items.drop_first(), acc)
                }
            } else {
                spec_adjusted_from(f, xf, cfg, items.drop_first(), acc)
            },
        }
    }
}

/// The decoded word of one operator under a state: show-text operators
/// decode their bytes, everything else contributes nothing.
pub open spec fn spec_word(
    fonts: Seq<(String, FontInfo)>,
    dflt: FontInfo,
    s: TextState,
    op: Op,
    cfg: LayoutConfig,
) -> Result<Seq<char>, TextDecodeError> {
    match op {
        Op::ShowText { text } => spec_decode(spec_font_of(fonts, dflt, s.font), text@),
        Op::ShowTextAdjusted { items } => spec_adjusted_from(
            spec_font_of(fonts, dflt, s.font),
            spec_abs(s.text_matrix.m11 as int),
            cfg,
            items@,
            Seq::<char>::empty(),
        ),
        _ => Ok(Seq::<char>::empty()),
    }
}

/// Join one nonempty word onto the page's text: a line break when the
/// vertical position moved beyond the scaled tolerance, else a single
/// space when the horizontal position moved beyond the scaled tolerance
/// and the junction joins ASCII alphanumerics; never a doubled break, a
/// doubled space, or a space right after a break.
pub open spec fn spec_join_word(
    out: Seq<char>,
    prev: (int, int),
    s: TextState,
    word: Seq<char>,
    cfg: LayoutConfig,
) -> Seq<char> {
    let ox = s.matrix.m31 as int + s.text_matrix.m31 as int;
    let oy = s.matrix.m32 as int + s.text_matrix.m32 as int;
    let xf = spec_abs(s.text_matrix.m11 as int);
    let yf = spec_abs(s.text_matrix.m22 as int);
    if spec_abs(prev.1 - oy) > yf * cfg.y_tolerance && out.len() > 0 && out.last() != '\n' {
        out.push('\n') + word
    } else if spec_abs(prev.0 - ox) > xf * cfg.x_tolerance && out.len() > 0 && out.last() != ' '
        && out.last() != '\n' && spec_is_ascii_alphanumeric(out.last())
        && spec_is_ascii_alphanumeric(word[0]) {
        out.push(' ') + word
    } else {
        out + word
    }
}

/// The streaming reconstruction: walk the operators from `s` with the
/// accumulated text and the offset of the last emitted fragment.
pub open spec fn spec_page_text_from(
    fonts: Seq<(String, FontInfo)>,
    gs: Seq<(String, Option<(Option<String>, i64)>)>,
    dflt: FontInfo,
    cfg: LayoutConfig,
    ops: Seq<Op>,
    s: TextState,
    out: Seq<char>,
    prev: (int, int),
) -> Result<Seq<char>, TextDecodeError>
    decreases ops.len(),
{
    if ops.len() == 0 {
        Ok(out)
    } else {
        let s2 = spec_apply_op(fonts, gs, s, ops[0]);
        match spec_word(fonts, dflt, s2, ops[0], cfg) {
            Err(e) => Err(e),
            Ok(word) => if word.len() == 0 {
                spec_page_text_from(fonts, gs, dflt, cfg, ops.drop_first(), s2, out, prev)
            } else {
                spec_page_text_from(
                    fonts,
                    gs,
                    dflt,
                    cfg,
                    ops.drop_first(),
                    s2,
                    spec_join_word(out, prev, s2, word, cfg),
                    (
                        s2.matrix.m31 as int + s2.text_matrix.m31 as int,
                        s2.matrix.m32 as int + s2.text_matrix.m32 as int,
                    ),
                )
            },
        }
    }
}

/// The whole page, from the default state.
pub open spec fn spec_page_text(
    fonts: Seq<(String, FontInfo)>,
    gs: Seq<(String, Option<(Option<String>, i64)>)>,
    dflt: FontInfo,
    cfg: LayoutConfig,
    ops: Seq<Op>,
) -> Result<Seq<char>, TextDecodeError> {
    spec_page_text_from(fonts, gs, dflt, cfg, ops, spec_default_state(), Seq::<char>::empty(), (0, 0))
}

fn i64_abs(x: i64) -> (r: i64)
    requires
        in_range(x as int),
    ensures
        r as int == spec_abs(x as int),
        0 <= r as int <= COORD_LIMIT,
{
    if x < 0 {
        -x
    } else {
        x
    }
}

fn push_all_chars(out: &mut Vec<char>, v: &Vec<char>)
    ensures
        final(out)@ == old(out)@ + v@,
{
    let n = v.len();
    for i in 0..n
        invariant
            n == v@.len(),
            out@ == old(out)@ + v@.subrange(0, i as int),
    {
        out.push(v[i]);
        proof {
            assert(old(out)@ + v@.subrange(0, i as int) + seq![v@[i as int]] =~= old(out)@
                + v@.subrange(0, i + 1));
        }
    }
    proof {
        assert(old(out)@ + v@.subrange(0, n as int) =~= old(out)@ + v@);
    }
}

fn adjusted_chars(f: &FontInfo, xf: i64, cfg: LayoutConfig, items: &Vec<TextItem>) -> (r: Result<
    Vec<char>,
    TextDecodeError,
>)
    requires
        0 <= xf <= COORD_LIMIT,
        wf_config(cfg),
    ensures
        match r {
            Ok(v) => spec_adjusted_from(*f, xf as int, cfg, items@, Seq::<char>::empty()) == Ok::<
                Seq<char>,
                TextDecodeError,
            >(v@),
            Err(e) => spec_adjusted_from(*f, xf as int, cfg, items@, Seq::<char>::empty()) == Err::<
                Seq<char>,
                TextDecodeError,
            >(e),
        },
{
    let mut word: Vec<char> = Vec::new();
    let n = items.len();
    assert(items@.skip(0) =~= items@);
    for i in 0..n
        invariant
            n == items@.len(),
            0 <= xf <= COORD_LIMIT,
            wf_config(cfg),
            spec_adjusted_from(*f, xf as int, cfg, items@, Seq::<char>::empty())
                == spec_adjusted_from(*f, xf as int, cfg, items@.skip(i as int), word@),
    {
        let ghost pre = items@.skip(i as int);
        proof {
            assert(pre[0] == items@[i as int]);
            assert(pre.drop_first() =~= items@.skip(i + 1));
        }
        match &items[i] {
            TextItem::Text(t) => match decode_chars(f, t.as_slice()) {
                Ok(v) => {
                    push_all_chars(&mut word, &v);
                },
                Err(e) => {
                    return Err(e);
                },
            },
            TextItem::Spacing(sp) => {
                proof {
                    lemma_mul_bound(cfg.word_gap as int, xf as int, COORD_LIMIT as int);
                }
                let m = i64_abs(clamp_coord(*sp));
                if m > cfg.word_gap * xf {
                    if word.len() == 0 || word[word.len() - 1] != ' ' {
                        word.push(' ');
                    }
                }
            },
        }
    }
    proof {
        assert(items@.skip(n as int).len() == 0);
    }
    Ok(word)
}

/// Extract one page's text in streaming mode: walk the operators while
/// tracking the text state, decode every shown byte string with the
/// cached font of the moment, and join the fragments by the geometric
/// thresholds. A raw decode failure aborts the page.
pub fn page_text(cache: &FontCache, ops: &Vec<Op>, cfg: LayoutConfig) -> (r: Result<
    String,
    TextDecodeError,
>)
    requires
        wf_config(cfg),
    ensures
        match r {
            Ok(s) => spec_page_text(cache.fonts@, cache.graphics_fonts@, cache.default_font, cfg, ops@)
                == Ok::<Seq<char>, TextDecodeError>(s@),
            Err(e) => spec_page_text(cache.fonts@, cache.graphics_fonts@, cache.default_font, cfg, ops@)
                == Err::<Seq<char>, TextDecodeError>(e),
        },
{
    let ghost dflt = cache.default_font;
    let mut out: Vec<char> = Vec::new();
    let mut state = TextState::default_state();
    let mut prev_x: i64 = 0;
    let mut prev_y: i64 = 0;
    let n = ops.len();
    assert(ops@.skip(0) =~= ops@);
    for i in 0..n
        invariant
            n == ops@.len(),
            wf_config(cfg),
            wf_state(state),
            -2 * (COORD_LIMIT as int) <= prev_x as int <= 2 * (COORD_LIMIT as int),
            -2 * (COORD_LIMIT as int) <= prev_y as int <= 2 * (COORD_LIMIT as int),
            cache.default_font == dflt,
            spec_page_text(cache.fonts@, cache.graphics_fonts@, dflt, cfg, ops@)
                == spec_page_text_from(
                cache.fonts@,
                cache.graphics_fonts@,
                dflt,
                cfg,
                ops@.skip(i as int),
                state,
                out@,
                (prev_x as int, prev_y as int),
            ),
    {
        let ghost pre = ops@.skip(i as int);
        proof {
            assert(pre[0] == ops@[i as int]);
            assert(pre.drop_first() =~= ops@.skip(i + 1));
        }
        let op = &ops[i];
        let s2 = apply_op(&cache, &state, op);
        state = s2;
        let word: Vec<char> = match op {
            Op::ShowText { text } => match decode_chars(font_of(&cache, &s2), text.as_slice()) {
                Ok(v) => v,
                Err(e) => {
                    return Err(e);
                },
            },
            Op::ShowTextAdjusted { items } => {
                let xf = i64_abs(s2.text_matrix.m11);
                match adjusted_chars(font_of(&cache, &s2), xf, cfg, items) {
                    Ok(v) => v,
                    Err(e) => {
                        return Err(e);
                    },
                }
            },
            _ => Vec::new(),
        };
        if word.len() > 0 {
            let ox = s2.matrix.m31 + s2.text_matrix.m31;
            let oy = s2.matrix.m32 + s2.text_matrix.m32;
            let xf = i64_abs(s2.text_matrix.m11);
            let yf = i64_abs(s2.text_matrix.m22);
            proof {
                lemma_mul_bound(yf as int, cfg.y_tolerance as int, COORD_LIMIT as int);
                lemma_mul_bound(xf as int, cfg.x_tolerance as int, COORD_LIMIT as int);
            }
            let dy = if prev_y >= oy {
                prev_y - oy
            } else {
                oy - prev_y
            };
            let dx = if prev_x >= ox {
                prev_x - ox
            } else {
                ox - prev_x
            };
            if dy > yf * cfg.y_tolerance && out.len() > 0 && out[out.len() - 1] != '\n' {
                out.push('\n');
                push_all_chars(&mut out, &word);
            } else if dx > xf * cfg.x_tolerance && out.len() > 0 && out[out.len() - 1] != ' '
                && out[out.len() - 1] != '\n' && char_is_ascii_alphanumeric(out[out.len() - 1])
                && char_is_ascii_alphanumeric(word[0]) {
                out.push(' ');
                push_all_chars(&mut out, &word);
            } else {
                push_all_chars(&mut out, &word);
            }
            prev_x = ox;
            prev_y = oy;
        }
    }
    proof {
        assert(ops@.skip(n as int).len() == 0);
    }
    Ok(chars_to_string(&out))
}


/// A bounding rectangle in page space: y grows upward, x rightward.
#[derive(Clone, Copy, PartialEq, Eq, Structural, Debug)]
pub struct Rect {
    pub x0: i64,
    pub y0: i64,
    pub x1: i64,
    pub y1: i64,
}

/// A decoded fragment with the rectangle it was drawn in.
#[derive(Debug)]
pub struct TextSpan {
    pub text: String,
    pub rect: Rect,
}

pub open spec fn wf_span(sp: TextSpan) -> bool {
    in_range(sp.rect.x0 as int) && in_range(sp.rect.y0 as int) && in_range(sp.rect.x1 as int)
        && in_range(sp.rect.y1 as int)
}

/// Reading order of the batch mode: higher fragments first, then left to
/// right.
pub open spec fn spec_key_le(a: TextSpan, b: TextSpan) -> bool {
    a.rect.y0 > b.rect.y0 || (a.rect.y0 == b.rect.y0 && a.rect.x0 <= b.rect.x0)
}

fn key_le(a: &TextSpan, b: &TextSpan) -> (r: bool)
    ensures
        r == spec_key_le(*a, *b),
{
    a.rect.y0 > b.rect.y0 || (a.rect.y0 == b.rect.y0 && a.rect.x0 <= b.rect.x0)
}

/// Stable insertion: `x` goes after every element that reads no later
/// than it.
pub open spec fn spec_insert_span(s: Seq<TextSpan>, x: TextSpan) -> Seq<TextSpan>
    decreases s.len(),
{
    if s.len() == 0 {
        seq![x]
    } else if spec_key_le(s[0], x) {
        seq![s[0]] + spec_insert_span(s.drop_first(), x)
    } else {
        seq![x] + s
    }
}

/// Stable insertion sort by the reading-order key.
pub open spec fn spec_sort_from(acc: Seq<TextSpan>, s: Seq<TextSpan>) -> Seq<TextSpan>
    decreases s.len(),
{
    if s.len() == 0 {
        acc
    } else {
        spec_sort_from(spec_insert_span(acc, s[0]), s.drop_first())
    }
}

pub open spec fn spec_sort_spans(s: Seq<TextSpan>) -> Seq<TextSpan> {
    spec_sort_from(Seq::<TextSpan>::empty(), s)
}

proof fn lemma_insert_at(s: Seq<TextSpan>, x: TextSpan, i: int)
    requires
        0 <= i <= s.len(),
        forall|j: int| 0 <= j < i ==> spec_key_le(#[trigger] s[j], x),
        i < s.len() ==> !spec_key_le(s[i], x),
    ensures
        spec_insert_span(s, x) == s.insert(i, x),
    decreases i,
{
    if s.len() == 0 {
        assert(spec_insert_span(s, x) =~= s.insert(0, x));
    } else if i == 0 {
        assert(spec_insert_span(s, x) =~= s.insert(0, x));
    } else {
        assert(spec_key_le(s[0], x));
        assert(forall|j: int|
            0 <= j < i - 1 ==> spec_key_le(#[trigger] s.drop_first()[j], x) && s.drop_first()[j]
                == s[j + 1]);
        assert(i - 1 < s.drop_first().len() ==> s.drop_first()[i - 1] == s[i]);
        lemma_insert_at(s.drop_first(), x, i - 1);
        assert(spec_insert_span(s, x) =~= s.insert(i, x));
    }
}

proof fn lemma_insert_keeps_wf(s: Seq<TextSpan>, x: TextSpan)
    requires
        forall|j: int| 0 <= j < s.len() ==> wf_span(#[trigger] s[j]),
        wf_span(x),
    ensures
        forall|j: int|
            0 <= j < spec_insert_span(s, x).len() ==> wf_span(#[trigger] spec_insert_span(s, x)[j]),
    decreases s.len(),
{
    if s.len() == 0 {
    } else if spec_key_le(s[0], x) {
        assert(forall|j: int|
            0 <= j < s.drop_first().len() ==> wf_span(#[trigger] s.drop_first()[j]));
        lemma_insert_keeps_wf(s.drop_first(), x);
        let r = spec_insert_span(s, x);
        assert forall|j: int| 0 <= j < r.len() implies wf_span(#[trigger] r[j]) by {
            if j == 0 {
                assert(r[0] == s[0]);
            } else {
                assert(r[j] == spec_insert_span(s.drop_first(), x)[j - 1]);
            }
        }
    } else {
        let r = spec_insert_span(s, x);
        assert forall|j: int| 0 <= j < r.len() implies wf_span(#[trigger] r[j]) by {
            if j == 0 {
                assert(r[0] == x);
            } else {
                assert(r[j] == s[j - 1]);
            }
        }
    }
}

fn insert_span(v: Vec<TextSpan>, x: TextSpan) -> (r: Vec<TextSpan>)
    ensures
        r@ == spec_insert_span(v@, x),
{
    let mut v = v;
    let n = v.len();
    let mut i: usize = 0;
    while i < n && key_le(&v[i], &x)
        invariant
            n == v@.len(),
            0 <= i <= n,
            forall|j: int| 0 <= j < i ==> spec_key_le(#[trigger] v@[j], x),
        decreases n - i,
    {
        i = i + 1;
    }
    proof {
        lemma_insert_at(v@, x, i as int);
    }
    v.insert(i, x);
    v
}

/// Sort spans into reading order: a stable insertion sort, so fragments
/// with one position keep their arrival order.
pub fn sort_spans(spans: Vec<TextSpan>) -> (r: Vec<TextSpan>)
    ensures
        r@ == spec_sort_spans(spans@),
        (forall|j: int| 0 <= j < spans@.len() ==> wf_span(#[trigger] spans@[j])) ==> (forall|
            j: int,
        | 0 <= j < r@.len() ==> wf_span(#[trigger] r@[j])),
{
    let ghost gspans = spans@;
    let ghost all_wf = forall|j: int| 0 <= j < spans@.len() ==> wf_span(#[trigger] spans@[j]);
    let mut spans = spans;
    let mut acc: Vec<TextSpan> = Vec::new();
    while spans.len() > 0
        invariant
            spec_sort_from(acc@, spans@) == spec_sort_spans(gspans),
            all_wf == (forall|j: int| 0 <= j < gspans.len() ==> wf_span(#[trigger] gspans[j])),
            all_wf ==> (forall|j: int| 0 <= j < acc@.len() ==> wf_span(#[trigger] acc@[j])),
            all_wf ==> (forall|j: int| 0 <= j < spans@.len() ==> wf_span(#[trigger] spans@[j])),
        decreases spans.len(),
    {
        let ghost pre = spans@;
        let ghost acc0 = acc@;
        let x = spans.remove(0);
        proof {
            assert(spans@ =~= pre.drop_first());
            if all_wf {
                lemma_insert_keeps_wf(acc0, x);
            }
        }
        let acc2 = insert_span(acc, x);
        acc = acc2;
    }
    acc
}

/// The batch join over spans already in processing order: a line break
/// when the vertical key increased or the horizontal position jumped
/// left beyond the threshold, else a single space over a wide enough gap
/// joining ASCII alphanumerics; never a doubled break or a space right
/// after a break.
pub open spec fn spec_batch_join_from(
    s: Seq<TextSpan>,
    cfg: LayoutConfig,
    out: Seq<char>,
    prev_x: int,
    prev_y: int,
) -> Seq<char>
    decreases s.len(),
{
    if s.len() == 0 {
        out
    } else {
        let sp = s[0];
        let brk = out.len() > 0 && (sp.rect.y0 < prev_y || sp.rect.x0 - prev_x < -(
        cfg.leftward_jump as int));
        let out1 = if brk {
            if out.last() != '\n' {
                out.push('\n')
            } else {
                out
            }
        } else if out.len() > 0 && sp.rect.x0 - prev_x > cfg.x_tolerance as int && out.last() != ' '
            && out.last() != '\n' && spec_is_ascii_alphanumeric(out.last()) && sp.text@.len() > 0
            && spec_is_ascii_alphanumeric(sp.text@[0]) {
            out.push(' ')
        } else {
            out
        };
        spec_batch_join_from(
            s.drop_first(),
            cfg,
            out1 + sp.text@,
            sp.rect.x1 as int,
            sp.rect.y0 as int,
        )
    }
}

/// The batch reconstruction: sort, then join.
pub open spec fn spec_items2text(spans: Seq<TextSpan>, cfg: LayoutConfig) -> Seq<char> {
    spec_batch_join_from(spec_sort_spans(spans), cfg, Seq::<char>::empty(), 0, 0)
}

/// Merge a batch of positioned spans into one text: sort them into
/// reading order, then apply the adjacency policy pairwise.
pub fn items2text(spans: Vec<TextSpan>, cfg: LayoutConfig) -> (r: String)
    requires
        wf_config(cfg),
        forall|j: int| 0 <= j < spans@.len() ==> wf_span(#[trigger] spans@[j]),
    ensures
        r@ == spec_items2text(spans@, cfg),
{
    let ghost gspans = spans@;
    let sorted = sort_spans(spans);
    let mut out: Vec<char> = Vec::new();
    let mut prev_x: i64 = 0;
    let mut prev_y: i64 = 0;
    let n = sorted.len();
    assert(sorted@.skip(0) =~= sorted@);
    for i in 0..n
        invariant
            n == sorted@.len(),
            wf_config(cfg),
            forall|j: int| 0 <= j < sorted@.len() ==> wf_span(#[trigger] sorted@[j]),
            in_range(prev_x as int),
            in_range(prev_y as int),
            spec_items2text(gspans, cfg) == spec_batch_join_from(
                sorted@.skip(i as int),
                cfg,
                out@,
                prev_x as int,
                prev_y as int,
            ),
    {
        let ghost pre = sorted@.skip(i as int);
        proof {
            assert(pre[0] == sorted@[i as int]);
            assert(pre.drop_first() =~= sorted@.skip(i + 1));
        }
        let sp = &sorted[i];
        let brk = out.len() > 0 && (sp.rect.y0 < prev_y || sp.rect.x0 - prev_x < -cfg.leftward_jump);
        if brk {
            if out[out.len() - 1] != '\n' {
                out.push('\n');
            }
        } else if out.len() > 0 && sp.rect.x0 - prev_x > cfg.x_tolerance {
            let lc = out[out.len() - 1];
            let t = sp.text.as_str();
            if lc != ' ' && lc != '\n' && char_is_ascii_alphanumeric(lc) && t.unicode_len() > 0
                && char_is_ascii_alphanumeric(t.get_char(0)) {
                out.push(' ');
            }
        }
        crate::text::push_str_chars(&mut out, sp.text.as_str());
        prev_x = sp.rect.x1;
        prev_y = sp.rect.y0;
    }
    proof {
        assert(sorted@.skip(n as int).len() == 0);
    }
    chars_to_string(&out)
}

/// Reconstruction is idempotent on its own single-line output: a batch
/// of one fragment comes back as exactly that fragment's text.
pub proof fn lemma_items2text_single(sp: TextSpan, cfg: LayoutConfig)
    ensures
        spec_items2text(seq![sp], cfg) == sp.text@,
{
    let s1 = seq![sp];
    assert(s1[0] == sp);
    assert(s1.drop_first() =~= Seq::<TextSpan>::empty());
    assert(spec_insert_span(Seq::<TextSpan>::empty(), sp) =~= seq![sp]);
    assert(spec_sort_from(Seq::<TextSpan>::empty(), s1) == spec_sort_from(
        spec_insert_span(Seq::<TextSpan>::empty(), sp),
        s1.drop_first(),
    ));
    assert(spec_sort_from(seq![sp], Seq::<TextSpan>::empty()) == seq![sp]);
    assert(spec_sort_spans(s1) == seq![sp]);
    assert(spec_batch_join_from(seq![sp], cfg, Seq::<char>::empty(), 0, 0)
        == spec_batch_join_from(
        Seq::<TextSpan>::empty(),
        cfg,
        Seq::<char>::empty() + sp.text@,
        sp.rect.x1 as int,
        sp.rect.y0 as int,
    ));
    assert(Seq::<char>::empty() + sp.text@ =~= sp.text@);
}

} // verus!
