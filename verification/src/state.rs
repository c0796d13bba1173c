//! The content-stream state tracker: a deterministic single pass over a
//! page's operators, maintaining the graphics transform, the text matrix,
//! the leading and the current font, and stamping every operator with the
//! state at the moment it executed.
//!
//! Coordinates are integer page units; a document's fractional values are
//! quantized by the caller before they reach this crate. Every stored
//! coordinate is clamped into `[-COORD_LIMIT, COORD_LIMIT]`, which keeps
//! all of the tracker's arithmetic inside `i64`.

use vstd::prelude::*;
use crate::fonts::FontCache;
use crate::fonts::spec_font_index;
use crate::fonts::spec_gs_lookup;
use crate::encoding::FontInfo;

verus! {

/// Bound on every coordinate the tracker stores.
pub const COORD_LIMIT: i64 = 1000000000;

pub open spec fn in_range(x: int) -> bool {
    -(COORD_LIMIT as int) <= x <= COORD_LIMIT as int
}

pub open spec fn spec_clamp(x: int) -> int {
    if x < -(COORD_LIMIT as int) {
        -(COORD_LIMIT as int)
    } else if x > COORD_LIMIT as int {
        COORD_LIMIT as int
    } else {
        x
    }
}

/// Clamp a coordinate into the tracked range.
pub fn clamp_coord(x: i64) -> (r: i64)
    ensures
        r as int == spec_clamp(x as int),
        in_range(r as int),
{
    if x < -COORD_LIMIT {
        -COORD_LIMIT
    } else if x > COORD_LIMIT {
        COORD_LIMIT
    } else {
        x
    }
}

/// A 2D affine transform: linear part m11..m22, translation m31/m32.
#[derive(Clone, Copy, PartialEq, Eq, Structural, Debug)]
pub struct Matrix {
    pub m11: i64,
    pub m12: i64,
    pub m21: i64,
    pub m22: i64,
    pub m31: i64,
    pub m32: i64,
}

pub open spec fn wf_matrix(m: Matrix) -> bool {
    in_range(m.m11 as int) && in_range(m.m12 as int) && in_range(m.m21 as int) && in_range(
        m.m22 as int,
    ) && in_range(m.m31 as int) && in_range(m.m32 as int)
}

impl Matrix {
    /// The identity transform.
    pub fn identity() -> (r: Matrix)
        ensures
            r == spec_identity(),
    {
        Matrix { m11: 1, m12: 0, m21: 0, m22: 1, m31: 0, m32: 0 }
    }
}

pub open spec fn spec_identity() -> Matrix {
    Matrix { m11: 1i64, m12: 0i64, m21: 0i64, m22: 1i64, m31: 0i64, m32: 0i64 }
}

/// Clamp every component.
pub open spec fn spec_clamp_matrix(m: Matrix) -> Matrix {
    Matrix {
        m11: spec_clamp(m.m11 as int) as i64,
        m12: spec_clamp(m.m12 as int) as i64,
        m21: spec_clamp(m.m21 as int) as i64,
        m22: spec_clamp(m.m22 as int) as i64,
        m31: spec_clamp(m.m31 as int) as i64,
        m32: spec_clamp(m.m32 as int) as i64,
    }
}

fn clamp_matrix(m: Matrix) -> (r: Matrix)
    ensures
        r == spec_clamp_matrix(m),
        wf_matrix(r),
{
    Matrix {
        m11: clamp_coord(m.m11),
        m12: clamp_coord(m.m12),
        m21: clamp_coord(m.m21),
        m22: clamp_coord(m.m22),
        m31: clamp_coord(m.m31),
        m32: clamp_coord(m.m32),
    }
}

/// Translate by (dx, dy) before applying `m`: only the translation
/// components move, by the linear image of (dx, dy), clamped.
pub open spec fn spec_pre_translate(m: Matrix, dx: int, dy: int) -> Matrix {
    Matrix {
        m11: m.m11,
        m12: m.m12,
        m21: m.m21,
        m22: m.m22,
        m31: spec_clamp(m.m31 as int + dx * m.m11 as int + dy * m.m21 as int) as i64,
        m32: spec_clamp(m.m32 as int + dx * m.m12 as int + dy * m.m22 as int) as i64,
    }
}

pub proof fn lemma_mul_bound(a: int, b: int, m: int)
    requires
        -m <= a <= m,
        -m <= b <= m,
        0 <= m,
    ensures
        -(m * m) <= a * b <= m * m,
{
    assert(-(m * m) <= a * b <= m * m) by (nonlinear_arith)
        requires
            -m <= a <= m,
            -m <= b <= m,
            0 <= m,
    ;
}

fn mat_pre_translate(m: Matrix, dx: i64, dy: i64) -> (r: Matrix)
    requires
        wf_matrix(m),
        in_range(dx as int),
        in_range(dy as int),
    ensures
        r == spec_pre_translate(m, dx as int, dy as int),
        wf_matrix(r),
{
    proof {
        lemma_mul_bound(dx as int, m.m11 as int, COORD_LIMIT as int);
        lemma_mul_bound(dy as int, m.m21 as int, COORD_LIMIT as int);
        lemma_mul_bound(dx as int, m.m12 as int, COORD_LIMIT as int);
        lemma_mul_bound(dy as int, m.m22 as int, COORD_LIMIT as int);
    }
    let tx = m.m31 + dx * m.m11 + dy * m.m21;
    let ty = m.m32 + dx * m.m12 + dy * m.m22;
    Matrix { m11: m.m11, m12: m.m12, m21: m.m21, m22: m.m22, m31: clamp_coord(tx), m32: clamp_coord(
        ty,
    ) }
}

/// One item of an adjusted show-text operator: a byte string to draw, or
/// an inter-glyph spacing adjustment.
#[derive(Debug)]
pub enum TextItem {
    Text(Vec<u8>),
    Spacing(i64),
}

/// A content-stream operator, reduced to the operators that move the text
/// state or draw text; everything else is `Other` and leaves the state
/// unchanged.
#[derive(Debug)]
pub enum Op {
    BeginText,
    SetGraphicsStateByName { name: String },
    SetFontByName { name: String, size: i64 },
    SetLeading { leading: i64 },
    NextLine,
    MoveTextPosition { dx: i64, dy: i64 },
    SetTransform { matrix: Matrix },
    SetTextMatrix { matrix: Matrix },
    ShowText { text: Vec<u8> },
    ShowTextAdjusted { items: Vec<TextItem> },
    Other,
}

/// The text state at one moment of the walk. States have value semantics:
/// every transition builds a new snapshot and the old one stays valid for
/// any fragment already stamped with it. The font is a handle into the
/// page's font cache; `None` means the raw default font.
#[derive(Clone, Copy, Debug)]
pub struct TextState {
    pub font: Option<usize>,
    pub font_size: i64,
    pub text_leading: i64,
    pub matrix: Matrix,
    pub text_matrix: Matrix,
}

pub open spec fn spec_default_state() -> TextState {
    TextState {
        font: None,
        font_size: 0i64,
        text_leading: 0i64,
        matrix: spec_identity(),
        text_matrix: spec_identity(),
    }
}

pub open spec fn wf_state(s: TextState) -> bool {
    wf_matrix(s.matrix) && wf_matrix(s.text_matrix) && in_range(s.font_size as int) && in_range(
        s.text_leading as int,
    )
}

/// The font handle a cache assigns to a name: an index, or the default.
pub open spec fn spec_handle_of_name(
    fonts: Seq<(String, FontInfo)>,
    name: Option<String>,
) -> Option<usize> {
    match name {
        Some(n) => match spec_font_index(fonts, n@) {
            Some(i) => Some(i as usize),
            None => None,
        },
        None => None,
    }
}

impl TextState {
    /// The default state: identity transforms, no font, zero leading.
    pub fn default_state() -> (r: TextState)
        ensures
            r == spec_default_state(),
    {
        TextState {
            font: None,
            font_size: 0,
            text_leading: 0,
            matrix: Matrix::identity(),
            text_matrix: Matrix::identity(),
        }
    }

    /// Where text drawn in this state lands: the sum of the graphics and
    /// text translations.
    pub fn text_offset(&self) -> (r: (i64, i64))
        requires
            wf_state(*self),
        ensures
            r.0 as int == self.matrix.m31 as int + self.text_matrix.m31 as int,
            r.1 as int == self.matrix.m32 as int + self.text_matrix.m32 as int,
    {
        (self.matrix.m31 + self.text_matrix.m31, self.matrix.m32 + self.text_matrix.m32)
    }
}

/// The transition of one operator, per the tracker's table: a new state
/// derived from the old one, which stays as it was.
pub open spec fn spec_apply_op(
    fonts: Seq<(String, FontInfo)>,
    gs: Seq<(String, Option<(Option<String>, i64)>)>,
    s: TextState,
    op: Op,
) -> TextState {
    match op {
        Op::BeginText => TextState { matrix: s.matrix, ..spec_default_state() },
        Op::SetGraphicsStateByName { name } => match spec_gs_lookup(gs, name@) {
            Some(Some(fs)) => TextState {
                font: spec_handle_of_name(fonts, fs.0),
                font_size: spec_clamp(fs.1 as int) as i64,
                ..s
            },
            _ => s,
        },
        Op::SetFontByName { name, size } => TextState {
            font: match spec_font_index(fonts, name@) {
                Some(i) => Some(i as usize),
                None => None,
            },
            font_size: spec_clamp(size as int) as i64,
            ..s
        },
        Op::SetLeading { leading } => TextState { text_leading: spec_clamp(leading as int) as i64, ..s },
        Op::NextLine => TextState {
            text_matrix: spec_pre_translate(s.text_matrix, 0, s.text_leading as int),
            ..s
        },
        Op::MoveTextPosition { dx, dy } => TextState {
            text_matrix: spec_pre_translate(
                s.text_matrix,
                spec_clamp(dx as int),
                spec_clamp(dy as int),
            ),
            ..s
        },
        Op::SetTransform { matrix } => TextState { matrix: spec_clamp_matrix(matrix), ..s },
        Op::SetTextMatrix { matrix } => TextState { text_matrix: spec_clamp_matrix(matrix), ..s },
        Op::ShowText { .. } => s,
        Op::ShowTextAdjusted { .. } => s,
        Op::Other => s,
    }
}

/// Apply one operator to the state.
pub fn apply_op(cache: &FontCache, s: &TextState, op: &Op) -> (r: TextState)
    requires
        wf_state(*s),
    ensures
        r == spec_apply_op(cache.fonts@, cache.graphics_fonts@, *s, *op),
        wf_state(r),
{
    match op {
        Op::BeginText => {
            let mut r = TextState::default_state();
            r.matrix = s.matrix;
            r
        },
        Op::SetGraphicsStateByName { name } => match cache.gs_handle(name.as_str()) {
            Some(p) => TextState { font: p.0, font_size: clamp_coord(p.1), ..*s },
            None => *s,
        },
        Op::SetFontByName { name, size } => TextState {
            font: cache.font_index(name.as_str()),
            font_size: clamp_coord(*size),
            ..*s
        },
        Op::SetLeading { leading } => TextState { text_leading: clamp_coord(*leading), ..*s },
        Op::NextLine => TextState {
            text_matrix: mat_pre_translate(s.text_matrix, 0, s.text_leading),
            ..*s
        },
        Op::MoveTextPosition { dx, dy } => TextState {
            text_matrix: mat_pre_translate(s.text_matrix, clamp_coord(*dx), clamp_coord(*dy)),
            ..*s
        },
        Op::SetTransform { matrix } => TextState { matrix: clamp_matrix(*matrix), ..*s },
        Op::SetTextMatrix { matrix } => TextState { text_matrix: clamp_matrix(*matrix), ..*s },
        Op::ShowText { .. } => *s,
        Op::ShowTextAdjusted { .. } => *s,
        Op::Other => *s,
    }
}

/// The state after a whole operator sequence, from `s0`.
pub open spec fn spec_state_after(
    fonts: Seq<(String, FontInfo)>,
    gs: Seq<(String, Option<(Option<String>, i64)>)>,
    ops: Seq<Op>,
    s0: TextState,
) -> TextState
    decreases ops.len(),
{
    if ops.len() == 0 {
        s0
    } else {
        spec_state_after(fonts, gs, ops.drop_first(), spec_apply_op(fonts, gs, s0, ops[0]))
    }
}

proof fn lemma_state_after_snoc(
    fonts: Seq<(String, FontInfo)>,
    gs: Seq<(String, Option<(Option<String>, i64)>)>,
    ops: Seq<Op>,
    op: Op,
    s0: TextState,
)
    ensures
        spec_state_after(fonts, gs, ops.push(op), s0) == spec_apply_op(
            fonts,
            gs,
            spec_state_after(fonts, gs, ops, s0),
            op,
        ),
    decreases ops.len(),
{
    if ops.len() == 0 {
        let p = ops.push(op);
        assert(p.len() == 1);
        assert(p[0] == op);
        assert(p.drop_first() =~= Seq::<Op>::empty());
        assert(spec_state_after(fonts, gs, p, s0) == spec_state_after(
            fonts,
            gs,
            p.drop_first(),
            spec_apply_op(fonts, gs, s0, p[0]),
        ));
        assert(spec_state_after(fonts, gs, Seq::<Op>::empty(), spec_apply_op(fonts, gs, s0, op))
            == spec_apply_op(fonts, gs, s0, op));
    } else {
        let p = ops.push(op);
        assert(p.drop_first() =~= ops.drop_first().push(op));
        assert(p[0] == ops[0]);
        assert(spec_state_after(fonts, gs, p, s0) == spec_state_after(
            fonts,
            gs,
            p.drop_first(),
            spec_apply_op(fonts, gs, s0, ops[0]),
        ));
        lemma_state_after_snoc(fonts, gs, ops.drop_first(), op, spec_apply_op(
            fonts,
            gs,
            s0,
            ops[0],
        ));
    }
}

/// Walk the operators of one page, pairing each with the state at the
/// moment it executed. The emitted state of position `i` is the state
/// after the first `i + 1` operators, so a drawing operator is paired
/// with the snapshot it draws under.
pub fn ops_with_text_state(cache: &FontCache, ops: Vec<Op>) -> (r: Vec<(Op, TextState)>)
    ensures
        r@.len() == ops@.len(),
        forall|i: int|
            0 <= i < ops@.len() ==> (#[trigger] r@[i]).0 == ops@[i] && r@[i].1 == spec_state_after(
                cache.fonts@,
                cache.graphics_fonts@,
                ops@.subrange(0, i + 1),
                spec_default_state(),
            ),
        forall|i: int| 0 <= i < ops@.len() ==> wf_state((#[trigger] r@[i]).1),
{
    let ghost gops = ops@;
    let mut ops = ops;
    let mut out: Vec<(Op, TextState)> = Vec::new();
    let mut state = TextState::default_state();
    let ghost mut done: Seq<Op> = Seq::empty();
    proof {
        assert(done + ops@ =~= gops);
    }
    while ops.len() > 0
        invariant
            gops == done + ops@,
            out@.len() == done.len(),
            wf_state(state),
            state == spec_state_after(cache.fonts@, cache.graphics_fonts@, done, spec_default_state()),
            forall|i: int|
                0 <= i < done.len() ==> (#[trigger] out@[i]).0 == gops[i] && out@[i].1
                    == spec_state_after(
                    cache.fonts@,
                    cache.graphics_fonts@,
                    gops.subrange(0, i + 1),
                    spec_default_state(),
                ),
            forall|i: int| 0 <= i < done.len() ==> wf_state((#[trigger] out@[i]).1),
        decreases ops.len(),
    {
        let ghost pre = ops@;
        let op = ops.remove(0);
        proof {
            assert(ops@ =~= pre.drop_first());
            assert(gops[done.len() as int] == op);
        }
        let s2 = apply_op(cache, &state, &op);
        state = s2;
        let ghost op_g = op;
        out.push((op, s2));
        proof {
            lemma_state_after_snoc(
                cache.fonts@,
                cache.graphics_fonts@,
                done,
                op_g,
                spec_default_state(),
            );
            let done_new = done + seq![op_g];
            assert(done_new =~= done.push(op_g));
            assert(spec_state_after(
                cache.fonts@,
                cache.graphics_fonts@,
                done_new,
                spec_default_state(),
            ) == s2);
            assert(done_new =~= gops.subrange(0, done_new.len() as int));
            done = done_new;
            assert(done + ops@ =~= gops);
        }
    }
    proof {
        assert(done =~= gops);
    }
    out
}

} // verus!
