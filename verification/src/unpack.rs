//! Reading a native drawing-rules blob back into one container per variant.
//!
//! Every reading step follows a spec-level decoder over the blob's bytes: a
//! decoder takes the bytes and a position and gives the value read and the
//! position after it, or the error that stops the reading.

use vstd::prelude::*;
use crate::model::{DashDot, PathSym, LineDef, LineRule, AreaRule, SymbolRule, CaptionDef, CaptionRule, ShieldRule, DrawElement, ClassifElement, ColorElement, ColorsElement, Container, DashDotView, PathSymView, LineDefView, LineRuleView, AreaRuleView, SymbolRuleView, CaptionDefView, CaptionRuleView, ShieldRuleView, DrawElementView, ClassifElementView, ColorElementView, ColorsElementView, ContainerView};
use crate::decode::{DecodeError, Step, Reader, dec_u8, dec_varuint, dec_varint, dec_u32, dec_f32, dec_string};
use crate::canonical::texts;
use crate::pack::{magic, VERSION};
use crate::palette::{key_views, container_views};
use crate::decode::{error_text, error_string};

verus! {

// ------------------------------------------------------------------ repetition

/// `n` values read one after the other by `f`.
pub open spec fn dec_rep<T>(d: Seq<u8>, p: int, n: nat, f: spec_fn(Seq<u8>, int) -> Step<T>) -> Step<Seq<T>>
    decreases n,
{
    if n == 0 {
        Ok((Seq::empty(), p))
    } else {
        match dec_rep(d, p, (n - 1) as nat, f) {
            Ok((xs, q)) => match f(d, q) {
                Ok((x, q2)) => Ok((xs.push(x), q2)),
                Err(e) => Err(e),
            },
            Err(e) => Err(e),
        }
    }
}

/// Once a repetition fails, every longer one fails the same way.
pub proof fn lemma_rep_err<T>(d: Seq<u8>, p: int, k: nat, n: nat, f: spec_fn(Seq<u8>, int) -> Step<T>)
    requires
        k <= n,
        dec_rep(d, p, k, f) is Err,
    ensures
        dec_rep(d, p, n, f) == dec_rep(d, p, k, f),
    decreases n,
{
    if k < n {
        lemma_rep_err(d, p, k, (n - 1) as nat, f);
    }
}

/// `res` is what the decoder step gives, with the cursor at `pos` after it.
pub open spec fn follows<T: View>(res: Result<T, DecodeError>, step: Step<T::V>, pos: int) -> bool {
    match step {
        Ok((v, q)) => res is Ok && res->Ok_0@ == v && pos == q,
        Err(e) => res is Err && res->Err_0 == e,
    }
}

/// A reader that keeps its bytes and stays within them.
pub open spec fn moved(a: Reader, b: Reader) -> bool {
    b.data@ == a.data@ && b.pos <= b.data@.len()
}

// ------------------------------------------------------------------ small values

/// A string table reference.
pub open spec fn dec_sref(d: Seq<u8>, p: int, strs: Seq<Seq<char>>) -> Step<Seq<char>> {
    match dec_varuint(d, p) {
        Ok((i, q)) => if (i as usize) < strs.len() {
            Ok((strs[(i as usize) as int], q))
        } else {
            Err(DecodeError::BadStringIndex)
        },
        Err(e) => Err(e),
    }
}

/// A signed field stored as a ZigZag varint, truncated to 32 bits.
pub open spec fn dec_i32(d: Seq<u8>, p: int) -> Step<i32> {
    match dec_varint(d, p) {
        Ok((v, q)) => Ok((v as i32, q)),
        Err(e) => Err(e),
    }
}

/// An unsigned field stored as a varint, truncated to 32 bits.
pub open spec fn dec_u32v(d: Seq<u8>, p: int) -> Step<u32> {
    match dec_varuint(d, p) {
        Ok((v, q)) => Ok((v as u32, q)),
        Err(e) => Err(e),
    }
}

/// A count stored as a varint.
pub open spec fn dec_count(d: Seq<u8>, p: int) -> Step<usize> {
    match dec_varuint(d, p) {
        Ok((v, q)) => Ok((v as usize, q)),
        Err(e) => Err(e),
    }
}

fn read_sref(r: &mut Reader, strs: &Vec<String>) -> (res: Result<String, DecodeError>)
    requires
        old(r).pos <= old(r).data@.len(),
    ensures
        moved(*old(r), *final(r)),
        follows(res, dec_sref(old(r).data@, old(r).pos as int, texts(strs@)), final(r).pos as int),
{
    let i = match r.varuint() {
        Ok(i) => i,
        Err(e) => return Err(e),
    };
    let k = i as usize;
    if k < strs.len() {
        Ok(strs[k].clone())
    } else {
        Err(DecodeError::BadStringIndex)
    }
}

fn read_i32(r: &mut Reader) -> (res: Result<i32, DecodeError>)
    requires
        old(r).pos <= old(r).data@.len(),
    ensures
        moved(*old(r), *final(r)),
        follows(res, dec_i32(old(r).data@, old(r).pos as int), final(r).pos as int),
{
    match r.varint() {
        Ok(v) => Ok(v as i32),
        Err(e) => Err(e),
    }
}

fn read_u32v(r: &mut Reader) -> (res: Result<u32, DecodeError>)
    requires
        old(r).pos <= old(r).data@.len(),
    ensures
        moved(*old(r), *final(r)),
        follows(res, dec_u32v(old(r).data@, old(r).pos as int), final(r).pos as int),
{
    match r.varuint() {
        Ok(v) => Ok(v as u32),
        Err(e) => Err(e),
    }
}

fn read_count(r: &mut Reader) -> (res: Result<usize, DecodeError>)
    requires
        old(r).pos <= old(r).data@.len(),
    ensures
        moved(*old(r), *final(r)),
        follows(res, dec_count(old(r).data@, old(r).pos as int), final(r).pos as int),
{
    match r.varuint() {
        Ok(v) => Ok(v as usize),
        Err(e) => Err(e),
    }
}


// ------------------------------------------------------------------ lines

/// The reals of a dash pattern.
pub open spec fn dec_reals(d: Seq<u8>, p: int, n: nat) -> Step<Seq<u64>> {
    dec_rep(d, p, n, |d: Seq<u8>, q: int| dec_f32(d, q))
}

/// A dash pattern when `flags` announce one: count, reals, offset.
#[verifier::opaque]
pub open spec fn dec_dash(d: Seq<u8>, p: int, flags: u8) -> Step<DashDotView> {
    if flags % 2 == 1 {
        match dec_count(d, p) {
            Ok((n, q)) => match dec_reals(d, q, n as nat) {
                Ok((dd, q2)) => match dec_f32(d, q2) {
                    Ok((off, q3)) => Ok((DashDotView { present: true, offset: off, dd: dd }, q3)),
                    Err(e) => Err(e),
                },
                Err(e) => Err(e),
            },
            Err(e) => Err(e),
        }
    } else {
        Ok((DashDotView::empty(), p))
    }
}

/// A path symbol when `flags` announce one: name, step, offset.
#[verifier::opaque]
pub open spec fn dec_pathsym(d: Seq<u8>, p: int, flags: u8, strs: Seq<Seq<char>>) -> Step<PathSymView> {
    if (flags / 2) % 2 == 1 {
        match dec_sref(d, p, strs) {
            Ok((name, q)) => match dec_f32(d, q) {
                Ok((step, q2)) => match dec_f32(d, q2) {
                    Ok((off, q3)) => Ok((PathSymView { present: true, name: name, step: step, offset: off }, q3)),
                    Err(e) => Err(e),
                },
                Err(e) => Err(e),
            },
            Err(e) => Err(e),
        }
    } else {
        Ok((PathSymView::empty(), p))
    }
}

/// The priority of a line where lines carry one.
pub open spec fn dec_prio(d: Seq<u8>, p: int, wp: bool) -> Step<i32> {
    if wp {
        dec_i32(d, p)
    } else {
        Ok((0i32, p))
    }
}

/// The fixed part of a line: flags, width, color, priority, join, cap.
#[verifier::opaque]
pub open spec fn dec_line_head(d: Seq<u8>, p: int, wp: bool) -> Step<(u8, u64, u32, i32, u8, u8)> {
    match dec_u8(d, p) {
        Ok((flags, p1)) => match dec_f32(d, p1) {
            Ok((width, p2)) => match dec_u32v(d, p2) {
                Ok((color, p3)) => match dec_prio(d, p3, wp) {
                    Ok((prio, p4)) => match dec_u8(d, p4) {
                        Ok((join, p5)) => match dec_u8(d, p5) {
                            Ok((cap, p6)) => Ok(((flags, width, color, prio, join, cap), p6)),
                            Err(e) => Err(e),
                        },
                        Err(e) => Err(e),
                    },
                    Err(e) => Err(e),
                },
                Err(e) => Err(e),
            },
            Err(e) => Err(e),
        },
        Err(e) => Err(e),
    }
}

/// A line (with its priority when `wp`).
#[verifier::opaque]
pub open spec fn dec_line(d: Seq<u8>, p: int, strs: Seq<Seq<char>>, wp: bool) -> Step<LineRuleView> {
    match dec_line_head(d, p, wp) {
        Ok((h, p1)) => match dec_dash(d, p1, h.0) {
            Ok((dd, p2)) => match dec_pathsym(d, p2, h.0, strs) {
                Ok((ps, p3)) => Ok((
                    LineRuleView {
                        present: true,
                        width: h.1,
                        color: h.2,
                        priority: h.3,
                        join: h.4,
                        cap: h.5,
                        dashdot: dd,
                        pathsym: ps,
                    },
                    p3,
                )),
                Err(e) => Err(e),
            },
            Err(e) => Err(e),
        },
        Err(e) => Err(e),
    }
}

fn read_reals(r: &mut Reader, n: usize) -> (res: Result<Vec<u64>, DecodeError>)
    requires
        old(r).pos <= old(r).data@.len(),
    ensures
        moved(*old(r), *final(r)),
        follows(res, dec_reals(old(r).data@, old(r).pos as int, n as nat), final(r).pos as int),
{
    let ghost d = r.data@;
    let ghost p0 = r.pos as int;
    let ghost f = |d: Seq<u8>, q: int| dec_f32(d, q);
    let mut v: Vec<u64> = Vec::new();
    for k in 0..n
        invariant
            r.data@ == d,
            r.pos <= d.len(),
            d == old(r).data@,
            p0 == old(r).pos as int,
            f == (|d: Seq<u8>, q: int| dec_f32(d, q)),
            dec_rep(d, p0, k as nat, f) == Ok::<(Seq<u64>, int), DecodeError>((v@, r.pos as int)),
    {
        match r.real32() {
            Ok(x) => {
                v.push(x);
            },
            Err(e) => {
                proof {
                    lemma_rep_err(d, p0, (k + 1) as nat, n as nat, f);
                }
                return Err(e);
            },
        }
    }
    Ok(v)
}

fn read_dash(r: &mut Reader, flags: u8) -> (res: Result<DashDot, DecodeError>)
    requires
        old(r).pos <= old(r).data@.len(),
    ensures
        moved(*old(r), *final(r)),
        follows(res, dec_dash(old(r).data@, old(r).pos as int, flags), final(r).pos as int),
{
    reveal(dec_dash);
    if flags % 2 == 1 {
        let n = match read_count(r) {
            Ok(n) => n,
            Err(e) => return Err(e),
        };
        let dd = match read_reals(r, n) {
            Ok(dd) => dd,
            Err(e) => return Err(e),
        };
        let off = match r.real32() {
            Ok(x) => x,
            Err(e) => return Err(e),
        };
        Ok(DashDot { present: true, offset: off, dd })
    } else {
        Ok(DashDot::new())
    }
}

fn read_pathsym(r: &mut Reader, flags: u8, strs: &Vec<String>) -> (res: Result<PathSym, DecodeError>)
    requires
        old(r).pos <= old(r).data@.len(),
    ensures
        moved(*old(r), *final(r)),
        follows(res, dec_pathsym(old(r).data@, old(r).pos as int, flags, texts(strs@)), final(r).pos as int),
{
    reveal(dec_pathsym);
    if (flags / 2) % 2 == 1 {
        let name = match read_sref(r, strs) {
            Ok(s) => s,
            Err(e) => return Err(e),
        };
        let step = match r.real32() {
            Ok(x) => x,
            Err(e) => return Err(e),
        };
        let off = match r.real32() {
            Ok(x) => x,
            Err(e) => return Err(e),
        };
        Ok(PathSym { present: true, name, step, offset: off })
    } else {
        Ok(PathSym::new())
    }
}

fn read_line_head(r: &mut Reader, wp: bool) -> (res: Result<(u8, u64, u32, i32, u8, u8), DecodeError>)
    requires
        old(r).pos <= old(r).data@.len(),
    ensures
        moved(*old(r), *final(r)),
        follows(res, dec_line_head(old(r).data@, old(r).pos as int, wp), final(r).pos as int),
{
    reveal(dec_line_head);
    let flags = match r.u8() {
        Ok(x) => x,
        Err(e) => return Err(e),
    };
    let width = match r.real32() {
        Ok(x) => x,
        Err(e) => return Err(e),
    };
    let color = match read_u32v(r) {
        Ok(x) => x,
        Err(e) => return Err(e),
    };
    let prio = if wp {
        match read_i32(r) {
            Ok(x) => x,
            Err(e) => return Err(e),
        }
    } else {
        0i32
    };
    let join = match r.u8() {
        Ok(x) => x,
        Err(e) => return Err(e),
    };
    let cap = match r.u8() {
        Ok(x) => x,
        Err(e) => return Err(e),
    };
    Ok((flags, width, color, prio, join, cap))
}

fn read_line(r: &mut Reader, strs: &Vec<String>, wp: bool) -> (res: Result<LineRule, DecodeError>)
    requires
        old(r).pos <= old(r).data@.len(),
    ensures
        moved(*old(r), *final(r)),
        follows(res, dec_line(old(r).data@, old(r).pos as int, texts(strs@), wp), final(r).pos as int),
{
    reveal(dec_line);
    let h = match read_line_head(r, wp) {
        Ok(h) => h,
        Err(e) => return Err(e),
    };
    let dashdot = match read_dash(r, h.0) {
        Ok(x) => x,
        Err(e) => return Err(e),
    };
    let pathsym = match read_pathsym(r, h.0, strs) {
        Ok(x) => x,
        Err(e) => return Err(e),
    };
    Ok(LineRule { present: true, width: h.1, color: h.2, priority: h.3, join: h.4, cap: h.5, dashdot, pathsym })
}


// ------------------------------------------------------------------ captions

/// A caption definition: height, color, stroke, offsets, text, optional flag.
#[verifier::opaque]
pub open spec fn dec_caption_def(d: Seq<u8>, p: int, strs: Seq<Seq<char>>) -> Step<CaptionDefView> {
    match dec_i32(d, p) {
        Ok((height, p1)) => match dec_u32v(d, p1) {
            Ok((color, p2)) => match dec_u32v(d, p2) {
                Ok((stroke, p3)) => match dec_i32(d, p3) {
                    Ok((dx, p4)) => match dec_i32(d, p4) {
                        Ok((dy, p5)) => match dec_sref(d, p5, strs) {
                            Ok((text, p6)) => match dec_u8(d, p6) {
                                Ok((opt, p7)) => Ok((
                                    CaptionDefView {
                                        present: true,
                                        height: height,
                                        color: color,
                                        stroke_color: stroke,
                                        offset_x: dx,
                                        offset_y: dy,
                                        text: text,
                                        is_optional: opt != 0,
                                    },
                                    p7,
                                )),
                                Err(e) => Err(e),
                            },
                            Err(e) => Err(e),
                        },
                        Err(e) => Err(e),
                    },
                    Err(e) => Err(e),
                },
                Err(e) => Err(e),
            },
            Err(e) => Err(e),
        },
        Err(e) => Err(e),
    }
}

/// A caption definition when `on`, else the fresh one.
pub open spec fn dec_caption_def_if(d: Seq<u8>, p: int, strs: Seq<Seq<char>>, on: bool) -> Step<CaptionDefView> {
    if on {
        dec_caption_def(d, p, strs)
    } else {
        Ok((CaptionDefView::empty(), p))
    }
}

/// A caption: flags, primary and secondary where flagged, priority.
#[verifier::opaque]
pub open spec fn dec_caption(d: Seq<u8>, p: int, strs: Seq<Seq<char>>) -> Step<CaptionRuleView> {
    match dec_u8(d, p) {
        Ok((flags, p1)) => match dec_caption_def_if(d, p1, strs, flags % 2 == 1) {
            Ok((primary, p2)) => match dec_caption_def_if(d, p2, strs, (flags / 2) % 2 == 1) {
                Ok((secondary, p3)) => match dec_i32(d, p3) {
                    Ok((prio, p4)) => Ok((
                        CaptionRuleView { present: true, priority: prio, primary: primary, secondary: secondary },
                        p4,
                    )),
                    Err(e) => Err(e),
                },
                Err(e) => Err(e),
            },
            Err(e) => Err(e),
        },
        Err(e) => Err(e),
    }
}

fn read_caption_def(r: &mut Reader, strs: &Vec<String>) -> (res: Result<CaptionDef, DecodeError>)
    requires
        old(r).pos <= old(r).data@.len(),
    ensures
        moved(*old(r), *final(r)),
        follows(res, dec_caption_def(old(r).data@, old(r).pos as int, texts(strs@)), final(r).pos as int),
{
    reveal(dec_caption_def);
    let height = match read_i32(r) {
        Ok(x) => x,
        Err(e) => return Err(e),
    };
    let color = match read_u32v(r) {
        Ok(x) => x,
        Err(e) => return Err(e),
    };
    let stroke = match read_u32v(r) {
        Ok(x) => x,
        Err(e) => return Err(e),
    };
    let dx = match read_i32(r) {
        Ok(x) => x,
        Err(e) => return Err(e),
    };
    let dy = match read_i32(r) {
        Ok(x) => x,
        Err(e) => return Err(e),
    };
    let text = match read_sref(r, strs) {
        Ok(x) => x,
        Err(e) => return Err(e),
    };
    let opt = match r.u8() {
        Ok(x) => x,
        Err(e) => return Err(e),
    };
    Ok(CaptionDef {
        present: true,
        height,
        color,
        stroke_color: stroke,
        offset_x: dx,
        offset_y: dy,
        text,
        is_optional: opt != 0,
    })
}

fn read_caption_def_if(r: &mut Reader, strs: &Vec<String>, on: bool) -> (res: Result<CaptionDef, DecodeError>)
    requires
        old(r).pos <= old(r).data@.len(),
    ensures
        moved(*old(r), *final(r)),
        follows(res, dec_caption_def_if(old(r).data@, old(r).pos as int, texts(strs@), on), final(r).pos as int),
{
    if on {
        read_caption_def(r, strs)
    } else {
        Ok(CaptionDef::new())
    }
}

fn read_caption(r: &mut Reader, strs: &Vec<String>) -> (res: Result<CaptionRule, DecodeError>)
    requires
        old(r).pos <= old(r).data@.len(),
    ensures
        moved(*old(r), *final(r)),
        follows(res, dec_caption(old(r).data@, old(r).pos as int, texts(strs@)), final(r).pos as int),
{
    reveal(dec_caption);
    let flags = match r.u8() {
        Ok(x) => x,
        Err(e) => return Err(e),
    };
    let primary = match read_caption_def_if(r, strs, flags % 2 == 1) {
        Ok(x) => x,
        Err(e) => return Err(e),
    };
    let secondary = match read_caption_def_if(r, strs, (flags / 2) % 2 == 1) {
        Ok(x) => x,
        Err(e) => return Err(e),
    };
    let prio = match read_i32(r) {
        Ok(x) => x,
        Err(e) => return Err(e),
    };
    Ok(CaptionRule { present: true, priority: prio, primary, secondary })
}


// ------------------------------------------------------------------ elements

/// `n` string table references.
pub open spec fn dec_srefs(d: Seq<u8>, p: int, n: nat, strs: Seq<Seq<char>>) -> Step<Seq<Seq<char>>> {
    dec_rep(d, p, n, |d: Seq<u8>, q: int| dec_sref(d, q, strs))
}

/// `n` lines with priorities.
pub open spec fn dec_lines(d: Seq<u8>, p: int, n: nat, strs: Seq<Seq<char>>) -> Step<Seq<LineRuleView>> {
    dec_rep(d, p, n, |d: Seq<u8>, q: int| dec_line(d, q, strs, true))
}

/// Scale, `apply_if` references and the kinds byte of an element.
#[verifier::opaque]
pub open spec fn dec_element_head(d: Seq<u8>, p: int, strs: Seq<Seq<char>>) -> Step<(u8, Seq<Seq<char>>, u8)> {
    match dec_u8(d, p) {
        Ok((scale, p1)) => match dec_count(d, p1) {
            Ok((na, p2)) => match dec_srefs(d, p2, na as nat, strs) {
                Ok((apply_if, p3)) => match dec_u8(d, p3) {
                    Ok((kind, p4)) => Ok(((scale, apply_if, kind), p4)),
                    Err(e) => Err(e),
                },
                Err(e) => Err(e),
            },
            Err(e) => Err(e),
        },
        Err(e) => Err(e),
    }
}

#[verifier::opaque]
pub open spec fn dec_lines_part(d: Seq<u8>, p: int, on: bool, strs: Seq<Seq<char>>) -> Step<Seq<LineRuleView>> {
    if on {
        match dec_count(d, p) {
            Ok((n, q)) => dec_lines(d, q, n as nat, strs),
            Err(e) => Err(e),
        }
    } else {
        Ok((Seq::empty(), p))
    }
}

/// The area border as read: a line without priority, keeping its dash
/// pattern only when it has dashes.
pub open spec fn border_of(l: LineRuleView) -> LineDefView {
    LineDefView {
        present: true,
        width: l.width,
        color: l.color,
        join: l.join,
        cap: l.cap,
        dashdot: if l.dashdot.dd.len() > 0 {
            DashDotView { present: true, offset: l.dashdot.offset, dd: l.dashdot.dd }
        } else {
            DashDotView::empty()
        },
        pathsym: if l.pathsym.is_set() {
            PathSymView { present: true, name: l.pathsym.name, step: l.pathsym.step, offset: l.pathsym.offset }
        } else {
            PathSymView::empty()
        },
    }
}

#[verifier::opaque]
pub open spec fn dec_border_if(d: Seq<u8>, p: int, on: bool, strs: Seq<Seq<char>>) -> Step<LineDefView> {
    if on {
        match dec_line(d, p, strs, false) {
            Ok((l, q)) => Ok((border_of(l), q)),
            Err(e) => Err(e),
        }
    } else {
        Ok((LineDefView::empty(), p))
    }
}

#[verifier::opaque]
pub open spec fn dec_area_part(d: Seq<u8>, p: int, on: bool, strs: Seq<Seq<char>>) -> Step<AreaRuleView> {
    if on {
        match dec_u8(d, p) {
            Ok((flags, p1)) => match dec_u32v(d, p1) {
                Ok((color, p2)) => match dec_i32(d, p2) {
                    Ok((prio, p3)) => match dec_border_if(d, p3, flags % 2 == 1, strs) {
                        Ok((border, p4)) => Ok((AreaRuleView { present: true, color: color, priority: prio, border: border }, p4)),
                        Err(e) => Err(e),
                    },
                    Err(e) => Err(e),
                },
                Err(e) => Err(e),
            },
            Err(e) => Err(e),
        }
    } else {
        Ok((AreaRuleView::empty(), p))
    }
}

#[verifier::opaque]
pub open spec fn dec_symbol_part(d: Seq<u8>, p: int, on: bool, strs: Seq<Seq<char>>) -> Step<SymbolRuleView> {
    if on {
        match dec_sref(d, p, strs) {
            Ok((name, p1)) => match dec_i32(d, p1) {
                Ok((aft, p2)) => match dec_i32(d, p2) {
                    Ok((prio, p3)) => match dec_i32(d, p3) {
                        Ok((mind, p4)) => Ok((
                            SymbolRuleView { present: true, name: name, apply_for_type: aft, priority: prio, min_distance: mind },
                            p4,
                        )),
                        Err(e) => Err(e),
                    },
                    Err(e) => Err(e),
                },
                Err(e) => Err(e),
            },
            Err(e) => Err(e),
        }
    } else {
        Ok((SymbolRuleView::empty(), p))
    }
}

#[verifier::opaque]
pub open spec fn dec_caption_part(d: Seq<u8>, p: int, on: bool, strs: Seq<Seq<char>>) -> Step<CaptionRuleView> {
    if on {
        dec_caption(d, p, strs)
    } else {
        Ok((CaptionRuleView::empty(), p))
    }
}

/// The signed fields of a shield: height, priority, minimum distance.
#[verifier::opaque]
pub open spec fn dec_shield_part(d: Seq<u8>, p: int, on: bool) -> Step<ShieldRuleView> {
    if on {
        match dec_i32(d, p) {
            Ok((height, p1)) => match dec_u32v(d, p1) {
                Ok((color, p2)) => match dec_u32v(d, p2) {
                    Ok((stroke, p3)) => match dec_i32(d, p3) {
                        Ok((prio, p4)) => match dec_i32(d, p4) {
                            Ok((mind, p5)) => match dec_u32v(d, p5) {
                                Ok((tc, p6)) => match dec_u32v(d, p6) {
                                    Ok((tsc, p7)) => Ok((
                                        ShieldRuleView {
                                            present: true,
                                            height: height,
                                            color: color,
                                            stroke_color: stroke,
                                            priority: prio,
                                            min_distance: mind,
                                            text_color: tc,
                                            text_stroke_color: tsc,
                                        },
                                        p7,
                                    )),
                                    Err(e) => Err(e),
                                },
                                Err(e) => Err(e),
                            },
                            Err(e) => Err(e),
                        },
                        Err(e) => Err(e),
                    },
                    Err(e) => Err(e),
                },
                Err(e) => Err(e),
            },
            Err(e) => Err(e),
        }
    } else {
        Ok((ShieldRuleView::empty(), p))
    }
}

/// A drawing element: head, then each kind its kinds byte announces.
#[verifier::opaque]
pub open spec fn dec_element(d: Seq<u8>, p: int, strs: Seq<Seq<char>>) -> Step<DrawElementView> {
    match dec_element_head(d, p, strs) {
        Ok((h, p1)) => match dec_lines_part(d, p1, h.2 % 2 == 1, strs) {
            Ok((lines, p2)) => match dec_area_part(d, p2, (h.2 / 2) % 2 == 1, strs) {
                Ok((area, p3)) => match dec_symbol_part(d, p3, (h.2 / 4) % 2 == 1, strs) {
                    Ok((symbol, p4)) => match dec_caption_part(d, p4, (h.2 / 8) % 2 == 1, strs) {
                        Ok((caption, p5)) => match dec_caption_part(d, p5, (h.2 / 16) % 2 == 1, strs) {
                            Ok((path_text, p6)) => match dec_shield_part(d, p6, (h.2 / 32) % 2 == 1) {
                                Ok((shield, p7)) => Ok((
                                    DrawElementView {
                                        present: true,
                                        scale: h.0,
                                        apply_if: h.1,
                                        area: area,
                                        symbol: symbol,
                                        caption: caption,
                                        path_text: path_text,
                                        shield: shield,
                                        lines: lines,
                                    },
                                    p7,
                                )),
                                Err(e) => Err(e),
                            },
                            Err(e) => Err(e),
                        },
                        Err(e) => Err(e),
                    },
                    Err(e) => Err(e),
                },
                Err(e) => Err(e),
            },
            Err(e) => Err(e),
        },
        Err(e) => Err(e),
    }
}

fn read_srefs(r: &mut Reader, n: usize, strs: &Vec<String>) -> (res: Result<Vec<String>, DecodeError>)
    requires
        old(r).pos <= old(r).data@.len(),
    ensures
        moved(*old(r), *final(r)),
        match dec_srefs(old(r).data@, old(r).pos as int, n as nat, texts(strs@)) {
            Ok((v, q)) => res is Ok && texts(res->Ok_0@) == v && final(r).pos == q,
            Err(e) => res is Err && res->Err_0 == e,
        },
{
    let ghost d = r.data@;
    let ghost p0 = r.pos as int;
    let ghost f = |d: Seq<u8>, q: int| dec_sref(d, q, texts(strs@));
    let mut v: Vec<String> = Vec::new();
    assert(texts(v@) =~= Seq::<Seq<char>>::empty());
    for k in 0..n
        invariant
            r.data@ == d,
            r.pos <= d.len(),
            d == old(r).data@,
            p0 == old(r).pos as int,
            f == (|d: Seq<u8>, q: int| dec_sref(d, q, texts(strs@))),
            dec_rep(d, p0, k as nat, f) == Ok::<(Seq<Seq<char>>, int), DecodeError>((texts(v@), r.pos as int)),
    {
        match read_sref(r, strs) {
            Ok(x) => {
                let ghost xv = x@;
                v.push(x);
                assert(texts(v@) =~= dec_rep(d, p0, k as nat, f)->Ok_0.0.push(xv));
            },
            Err(e) => {
                proof {
                    lemma_rep_err(d, p0, (k + 1) as nat, n as nat, f);
                }
                return Err(e);
            },
        }
    }
    Ok(v)
}

fn read_lines(r: &mut Reader, n: usize, strs: &Vec<String>) -> (res: Result<Vec<LineRule>, DecodeError>)
    requires
        old(r).pos <= old(r).data@.len(),
    ensures
        moved(*old(r), *final(r)),
        match dec_lines(old(r).data@, old(r).pos as int, n as nat, texts(strs@)) {
            Ok((v, q)) => res is Ok && res->Ok_0@.map_values(|l: LineRule| l@) == v && final(r).pos == q,
            Err(e) => res is Err && res->Err_0 == e,
        },
{
    let ghost d = r.data@;
    let ghost p0 = r.pos as int;
    let ghost f = |d: Seq<u8>, q: int| dec_line(d, q, texts(strs@), true);
    let mut v: Vec<LineRule> = Vec::new();
    assert(v@.map_values(|l: LineRule| l@) =~= Seq::<LineRuleView>::empty());
    for k in 0..n
        invariant
            r.data@ == d,
            r.pos <= d.len(),
            d == old(r).data@,
            p0 == old(r).pos as int,
            f == (|d: Seq<u8>, q: int| dec_line(d, q, texts(strs@), true)),
            dec_rep(d, p0, k as nat, f) == Ok::<(Seq<LineRuleView>, int), DecodeError>((v@.map_values(|l: LineRule| l@), r.pos as int)),
    {
        match read_line(r, strs, true) {
            Ok(x) => {
                let ghost xv = x@;
                v.push(x);
                assert(v@.map_values(|l: LineRule| l@) =~= dec_rep(d, p0, k as nat, f)->Ok_0.0.push(xv));
            },
            Err(e) => {
                proof {
                    lemma_rep_err(d, p0, (k + 1) as nat, n as nat, f);
                }
                return Err(e);
            },
        }
    }
    Ok(v)
}

fn read_element_head(r: &mut Reader, strs: &Vec<String>) -> (res: Result<(u8, Vec<String>, u8), DecodeError>)
    requires
        old(r).pos <= old(r).data@.len(),
    ensures
        moved(*old(r), *final(r)),
        match dec_element_head(old(r).data@, old(r).pos as int, texts(strs@)) {
            Ok((h, q)) => res is Ok && res->Ok_0.0 == h.0 && texts(res->Ok_0.1@) == h.1 && res->Ok_0.2 == h.2
                && final(r).pos == q,
            Err(e) => res is Err && res->Err_0 == e,
        },
{
    reveal(dec_element_head);
    let scale = match r.u8() {
        Ok(x) => x,
        Err(e) => return Err(e),
    };
    let na = match read_count(r) {
        Ok(x) => x,
        Err(e) => return Err(e),
    };
    let apply_if = match read_srefs(r, na, strs) {
        Ok(x) => x,
        Err(e) => return Err(e),
    };
    let kind = match r.u8() {
        Ok(x) => x,
        Err(e) => return Err(e),
    };
    Ok((scale, apply_if, kind))
}

fn read_lines_part(r: &mut Reader, on: bool, strs: &Vec<String>) -> (res: Result<Vec<LineRule>, DecodeError>)
    requires
        old(r).pos <= old(r).data@.len(),
    ensures
        moved(*old(r), *final(r)),
        match dec_lines_part(old(r).data@, old(r).pos as int, on, texts(strs@)) {
            Ok((v, q)) => res is Ok && res->Ok_0@.map_values(|l: LineRule| l@) == v && final(r).pos == q,
            Err(e) => res is Err && res->Err_0 == e,
        },
{
    reveal(dec_lines_part);
    if on {
        let n = match read_count(r) {
            Ok(x) => x,
            Err(e) => return Err(e),
        };
        read_lines(r, n, strs)
    } else {
        let v: Vec<LineRule> = Vec::new();
        assert(v@.map_values(|l: LineRule| l@) =~= Seq::<LineRuleView>::empty());
        Ok(v)
    }
}

fn read_border_if(r: &mut Reader, on: bool, strs: &Vec<String>) -> (res: Result<LineDef, DecodeError>)
    requires
        old(r).pos <= old(r).data@.len(),
    ensures
        moved(*old(r), *final(r)),
        follows(res, dec_border_if(old(r).data@, old(r).pos as int, on, texts(strs@)), final(r).pos as int),
{
    reveal(dec_border_if);
    if on {
        let l = match read_line(r, strs, false) {
            Ok(x) => x,
            Err(e) => return Err(e),
        };
        let mut b = LineDef::new();
        b.set_width(l.width);
        b.set_color(l.color);
        b.set_join(l.join);
        b.set_cap(l.cap);
        if l.dashdot.dd.len() > 0 {
            b.dashdot = DashDot { present: true, offset: l.dashdot.offset, dd: l.dashdot.dd };
        }
        if l.pathsym.is_set() {
            b.pathsym.set_name(l.pathsym.name.as_str());
            b.pathsym.set_step(l.pathsym.step);
            b.pathsym.set_offset(l.pathsym.offset);
        }
        Ok(b)
    } else {
        Ok(LineDef::new())
    }
}

fn read_area_part(r: &mut Reader, on: bool, strs: &Vec<String>) -> (res: Result<AreaRule, DecodeError>)
    requires
        old(r).pos <= old(r).data@.len(),
    ensures
        moved(*old(r), *final(r)),
        follows(res, dec_area_part(old(r).data@, old(r).pos as int, on, texts(strs@)), final(r).pos as int),
{
    reveal(dec_area_part);
    if on {
        let flags = match r.u8() {
            Ok(x) => x,
            Err(e) => return Err(e),
        };
        let color = match read_u32v(r) {
            Ok(x) => x,
            Err(e) => return Err(e),
        };
        let prio = match read_i32(r) {
            Ok(x) => x,
            Err(e) => return Err(e),
        };
        let border = match read_border_if(r, flags % 2 == 1, strs) {
            Ok(x) => x,
            Err(e) => return Err(e),
        };
        Ok(AreaRule { present: true, color, priority: prio, border })
    } else {
        Ok(AreaRule::new())
    }
}

fn read_symbol_part(r: &mut Reader, on: bool, strs: &Vec<String>) -> (res: Result<SymbolRule, DecodeError>)
    requires
        old(r).pos <= old(r).data@.len(),
    ensures
        moved(*old(r), *final(r)),
        follows(res, dec_symbol_part(old(r).data@, old(r).pos as int, on, texts(strs@)), final(r).pos as int),
{
    reveal(dec_symbol_part);
    if on {
        let name = match read_sref(r, strs) {
            Ok(x) => x,
            Err(e) => return Err(e),
        };
        let aft = match read_i32(r) {
            Ok(x) => x,
            Err(e) => return Err(e),
        };
        let prio = match read_i32(r) {
            Ok(x) => x,
            Err(e) => return Err(e),
        };
        let mind = match read_i32(r) {
            Ok(x) => x,
            Err(e) => return Err(e),
        };
        Ok(SymbolRule { present: true, name, apply_for_type: aft, priority: prio, min_distance: mind })
    } else {
        Ok(SymbolRule::new())
    }
}

fn read_caption_part(r: &mut Reader, on: bool, strs: &Vec<String>) -> (res: Result<CaptionRule, DecodeError>)
    requires
        old(r).pos <= old(r).data@.len(),
    ensures
        moved(*old(r), *final(r)),
        follows(res, dec_caption_part(old(r).data@, old(r).pos as int, on, texts(strs@)), final(r).pos as int),
{
    reveal(dec_caption_part);
    if on {
        read_caption(r, strs)
    } else {
        Ok(CaptionRule::new())
    }
}

fn read_shield_part(r: &mut Reader, on: bool) -> (res: Result<ShieldRule, DecodeError>)
    requires
        old(r).pos <= old(r).data@.len(),
    ensures
        moved(*old(r), *final(r)),
        follows(res, dec_shield_part(old(r).data@, old(r).pos as int, on), final(r).pos as int),
{
    reveal(dec_shield_part);
    if on {
        let height = match read_i32(r) {
            Ok(x) => x,
            Err(e) => return Err(e),
        };
        let color = match read_u32v(r) {
            Ok(x) => x,
            Err(e) => return Err(e),
        };
        let stroke = match read_u32v(r) {
            Ok(x) => x,
            Err(e) => return Err(e),
        };
        let prio = match read_i32(r) {
            Ok(x) => x,
            Err(e) => return Err(e),
        };
        let mind = match read_i32(r) {
            Ok(x) => x,
            Err(e) => return Err(e),
        };
        let tc = match read_u32v(r) {
            Ok(x) => x,
            Err(e) => return Err(e),
        };
        let tsc = match read_u32v(r) {
            Ok(x) => x,
            Err(e) => return Err(e),
        };
        Ok(ShieldRule {
            present: true,
            height,
            color,
            stroke_color: stroke,
            priority: prio,
            min_distance: mind,
            text_color: tc,
            text_stroke_color: tsc,
        })
    } else {
        Ok(ShieldRule::new())
    }
}

fn read_element(r: &mut Reader, strs: &Vec<String>) -> (res: Result<DrawElement, DecodeError>)
    requires
        old(r).pos <= old(r).data@.len(),
    ensures
        moved(*old(r), *final(r)),
        follows(res, dec_element(old(r).data@, old(r).pos as int, texts(strs@)), final(r).pos as int),
{
    reveal(dec_element);
    let (scale, apply_if, kind) = match read_element_head(r, strs) {
        Ok(x) => x,
        Err(e) => return Err(e),
    };
    let lines = match read_lines_part(r, kind % 2 == 1, strs) {
        Ok(x) => x,
        Err(e) => return Err(e),
    };
    let area = match read_area_part(r, (kind / 2) % 2 == 1, strs) {
        Ok(x) => x,
        Err(e) => return Err(e),
    };
    let symbol = match read_symbol_part(r, (kind / 4) % 2 == 1, strs) {
        Ok(x) => x,
        Err(e) => return Err(e),
    };
    let caption = match read_caption_part(r, (kind / 8) % 2 == 1, strs) {
        Ok(x) => x,
        Err(e) => return Err(e),
    };
    let path_text = match read_caption_part(r, (kind / 16) % 2 == 1, strs) {
        Ok(x) => x,
        Err(e) => return Err(e),
    };
    let shield = match read_shield_part(r, (kind / 32) % 2 == 1) {
        Ok(x) => x,
        Err(e) => return Err(e),
    };
    Ok(DrawElement { present: true, scale, apply_if, area, symbol, caption, path_text, shield, lines })
}


// ------------------------------------------------------------------ types

/// A type: name reference, element count, elements; the name is looked up
/// after the elements are read.
pub open spec fn dec_type(d: Seq<u8>, p: int, strs: Seq<Seq<char>>) -> Step<(Seq<char>, Seq<DrawElementView>)> {
    match dec_count(d, p) {
        Ok((ni, p1)) => match dec_count(d, p1) {
            Ok((ne, p2)) => match dec_rep(d, p2, ne as nat, |d: Seq<u8>, q: int| dec_element(d, q, strs)) {
                Ok((els, p3)) => if (ni as int) < strs.len() {
                    Ok(((strs[ni as int], els), p3))
                } else {
                    Err(DecodeError::BadStringIndex)
                },
                Err(e) => Err(e),
            },
            Err(e) => Err(e),
        },
        Err(e) => Err(e),
    }
}

/// The views of decoded types.
pub open spec fn type_views(v: Seq<(String, Vec<DrawElement>)>) -> Seq<(Seq<char>, Seq<DrawElementView>)> {
    v.map_values(|t: (String, Vec<DrawElement>)| (t.0@, t.1@.map_values(|e: DrawElement| e@)))
}

fn read_elements(r: &mut Reader, n: usize, strs: &Vec<String>) -> (res: Result<Vec<DrawElement>, DecodeError>)
    requires
        old(r).pos <= old(r).data@.len(),
    ensures
        moved(*old(r), *final(r)),
        match dec_rep(old(r).data@, old(r).pos as int, n as nat, |d: Seq<u8>, q: int| dec_element(d, q, texts(strs@))) {
            Ok((v, q)) => res is Ok && res->Ok_0@.map_values(|e: DrawElement| e@) == v && final(r).pos == q,
            Err(e) => res is Err && res->Err_0 == e,
        },
{
    let ghost d = r.data@;
    let ghost p0 = r.pos as int;
    let ghost f = |d: Seq<u8>, q: int| dec_element(d, q, texts(strs@));
    let mut v: Vec<DrawElement> = Vec::new();
    assert(v@.map_values(|e: DrawElement| e@) =~= Seq::<DrawElementView>::empty());
    for k in 0..n
        invariant
            r.data@ == d,
            r.pos <= d.len(),
            d == old(r).data@,
            p0 == old(r).pos as int,
            f == (|d: Seq<u8>, q: int| dec_element(d, q, texts(strs@))),
            dec_rep(d, p0, k as nat, f) == Ok::<(Seq<DrawElementView>, int), DecodeError>((v@.map_values(|e: DrawElement| e@), r.pos as int)),
    {
        match read_element(r, strs) {
            Ok(x) => {
                let ghost xv = x@;
                v.push(x);
                assert(v@.map_values(|e: DrawElement| e@) =~= dec_rep(d, p0, k as nat, f)->Ok_0.0.push(xv));
            },
            Err(e) => {
                proof {
                    lemma_rep_err(d, p0, (k + 1) as nat, n as nat, f);
                }
                return Err(e);
            },
        }
    }
    Ok(v)
}

fn read_type(r: &mut Reader, strs: &Vec<String>) -> (res: Result<(String, Vec<DrawElement>), DecodeError>)
    requires
        old(r).pos <= old(r).data@.len(),
    ensures
        moved(*old(r), *final(r)),
        match dec_type(old(r).data@, old(r).pos as int, texts(strs@)) {
            Ok((v, q)) => res is Ok && res->Ok_0.0@ == v.0 && res->Ok_0.1@.map_values(|e: DrawElement| e@) == v.1
                && final(r).pos == q,
            Err(e) => res is Err && res->Err_0 == e,
        },
{
    let ni = match read_count(r) {
        Ok(x) => x,
        Err(e) => return Err(e),
    };
    let ne = match read_count(r) {
        Ok(x) => x,
        Err(e) => return Err(e),
    };
    let els = match read_elements(r, ne, strs) {
        Ok(x) => x,
        Err(e) => return Err(e),
    };
    if ni < strs.len() {
        Ok((strs[ni].clone(), els))
    } else {
        Err(DecodeError::BadStringIndex)
    }
}

// ------------------------------------------------------------------ sections

/// The start of a section: its size; gives the section's end.
pub open spec fn dec_begin(d: Seq<u8>, p: int) -> Step<int> {
    match dec_count(d, p) {
        Ok((size, q)) => if size <= d.len() - q {
            Ok((q + size, q))
        } else {
            Err(DecodeError::TruncatedSection)
        },
        Err(e) => Err(e),
    }
}

/// Leaving a section that ends at `end` with the cursor at `p`.
pub open spec fn dec_end(p: int, end: int) -> Result<int, DecodeError> {
    if p > end {
        Err(DecodeError::SectionOverrun)
    } else {
        Ok(end)
    }
}

/// Reads a section's size; the result is the section's end.
fn begin_section(r: &mut Reader) -> (res: Result<usize, DecodeError>)
    requires
        old(r).pos <= old(r).data@.len(),
    ensures
        moved(*old(r), *final(r)),
        match dec_begin(old(r).data@, old(r).pos as int) {
            Ok((end, q)) => res is Ok && res->Ok_0 == end && final(r).pos == q && end <= final(r).data@.len(),
            Err(e) => res is Err && res->Err_0 == e,
        },
{
    let size = match read_count(r) {
        Ok(x) => x,
        Err(e) => return Err(e),
    };
    if size <= r.data.len() - r.pos {
        Ok(r.pos + size)
    } else {
        Err(DecodeError::TruncatedSection)
    }
}

fn end_section(r: &mut Reader, end: usize) -> (res: Result<(), DecodeError>)
    requires
        old(r).pos <= old(r).data@.len(),
        end <= old(r).data@.len(),
    ensures
        moved(*old(r), *final(r)),
        match dec_end(old(r).pos as int, end as int) {
            Ok(q) => res is Ok && final(r).pos == q,
            Err(e) => res is Err && res->Err_0 == e,
        },
{
    if r.pos > end {
        Err(DecodeError::SectionOverrun)
    } else {
        r.pos = end;
        Ok(())
    }
}

/// `n` strings.
pub open spec fn dec_strings(d: Seq<u8>, p: int, n: nat) -> Step<Seq<Seq<char>>> {
    dec_rep(d, p, n, |d: Seq<u8>, q: int| dec_string(d, q))
}

fn read_strings(r: &mut Reader, n: usize) -> (res: Result<Vec<String>, DecodeError>)
    requires
        old(r).pos <= old(r).data@.len(),
    ensures
        moved(*old(r), *final(r)),
        match dec_strings(old(r).data@, old(r).pos as int, n as nat) {
            Ok((v, q)) => res is Ok && texts(res->Ok_0@) == v && final(r).pos == q,
            Err(e) => res is Err && res->Err_0 == e,
        },
{
    let ghost d = r.data@;
    let ghost p0 = r.pos as int;
    let ghost f = |d: Seq<u8>, q: int| dec_string(d, q);
    let mut v: Vec<String> = Vec::new();
    assert(texts(v@) =~= Seq::<Seq<char>>::empty());
    for k in 0..n
        invariant
            r.data@ == d,
            r.pos <= d.len(),
            d == old(r).data@,
            p0 == old(r).pos as int,
            f == (|d: Seq<u8>, q: int| dec_string(d, q)),
            dec_rep(d, p0, k as nat, f) == Ok::<(Seq<Seq<char>>, int), DecodeError>((texts(v@), r.pos as int)),
    {
        match r.string() {
            Ok(x) => {
                let ghost xv = x@;
                v.push(x);
                assert(texts(v@) =~= dec_rep(d, p0, k as nat, f)->Ok_0.0.push(xv));
            },
            Err(e) => {
                proof {
                    lemma_rep_err(d, p0, (k + 1) as nat, n as nat, f);
                }
                return Err(e);
            },
        }
    }
    Ok(v)
}

/// The string table section; the table must start with the empty string.
pub open spec fn dec_strtab_section(d: Seq<u8>, p: int) -> Step<Seq<Seq<char>>> {
    match dec_begin(d, p) {
        Ok((end, p1)) => match dec_count(d, p1) {
            Ok((n, p2)) => match dec_strings(d, p2, n as nat) {
                Ok((strs, p3)) => if strs.len() == 0 || strs[0].len() != 0 {
                    Err(DecodeError::BadStringTable)
                } else {
                    match dec_end(p3, end) {
                        Ok(q) => Ok((strs, q)),
                        Err(e) => Err(e),
                    }
                },
                Err(e) => Err(e),
            },
            Err(e) => Err(e),
        },
        Err(e) => Err(e),
    }
}

fn read_strtab_section(r: &mut Reader) -> (res: Result<Vec<String>, DecodeError>)
    requires
        old(r).pos <= old(r).data@.len(),
    ensures
        moved(*old(r), *final(r)),
        match dec_strtab_section(old(r).data@, old(r).pos as int) {
            Ok((v, q)) => res is Ok && texts(res->Ok_0@) == v && final(r).pos == q,
            Err(e) => res is Err && res->Err_0 == e,
        },
{
    let end = match begin_section(r) {
        Ok(x) => x,
        Err(e) => return Err(e),
    };
    let n = match read_count(r) {
        Ok(x) => x,
        Err(e) => return Err(e),
    };
    let strs = match read_strings(r, n) {
        Ok(x) => x,
        Err(e) => return Err(e),
    };
    if strs.len() == 0 || !strs[0].as_str().is_empty() {
        assert(strs.len() > 0 ==> texts(strs@)[0] == strs@[0]@);
        return Err(DecodeError::BadStringTable);
    }
    assert(texts(strs@)[0] == strs@[0]@);
    match end_section(r, end) {
        Ok(()) => Ok(strs),
        Err(e) => Err(e),
    }
}

/// `n` little-endian `u32` values.
pub open spec fn dec_u32s(d: Seq<u8>, p: int, n: nat) -> Step<Seq<u32>> {
    dec_rep(d, p, n, |d: Seq<u8>, q: int| dec_u32(d, q))
}

/// The color table section: the palette size, then `nv` rows of colors.
pub open spec fn dec_colors_section(d: Seq<u8>, p: int, nv: nat) -> Step<Seq<Seq<u32>>> {
    match dec_begin(d, p) {
        Ok((end, p1)) => match dec_count(d, p1) {
            Ok((c, p2)) => match dec_rep(d, p2, nv, |d: Seq<u8>, q: int| dec_u32s(d, q, c as nat)) {
                Ok((rows, p3)) => match dec_end(p3, end) {
                    Ok(q) => Ok((rows, q)),
                    Err(e) => Err(e),
                },
                Err(e) => Err(e),
            },
            Err(e) => Err(e),
        },
        Err(e) => Err(e),
    }
}

fn read_u32s(r: &mut Reader, n: usize) -> (res: Result<Vec<u32>, DecodeError>)
    requires
        old(r).pos <= old(r).data@.len(),
    ensures
        moved(*old(r), *final(r)),
        follows(res, dec_u32s(old(r).data@, old(r).pos as int, n as nat), final(r).pos as int),
{
    let ghost d = r.data@;
    let ghost p0 = r.pos as int;
    let ghost f = |d: Seq<u8>, q: int| dec_u32(d, q);
    let mut v: Vec<u32> = Vec::new();
    for k in 0..n
        invariant
            r.data@ == d,
            r.pos <= d.len(),
            d == old(r).data@,
            p0 == old(r).pos as int,
            f == (|d: Seq<u8>, q: int| dec_u32(d, q)),
            dec_rep(d, p0, k as nat, f) == Ok::<(Seq<u32>, int), DecodeError>((v@, r.pos as int)),
    {
        match r.u32() {
            Ok(x) => {
                v.push(x);
            },
            Err(e) => {
                proof {
                    lemma_rep_err(d, p0, (k + 1) as nat, n as nat, f);
                }
                return Err(e);
            },
        }
    }
    Ok(v)
}

fn read_rows(r: &mut Reader, nv: usize, c: usize) -> (res: Result<Vec<Vec<u32>>, DecodeError>)
    requires
        old(r).pos <= old(r).data@.len(),
    ensures
        moved(*old(r), *final(r)),
        match dec_rep(old(r).data@, old(r).pos as int, nv as nat, |d: Seq<u8>, q: int| dec_u32s(d, q, c as nat)) {
            Ok((v, q)) => res is Ok && crate::palette::key_views(res->Ok_0@) == v && final(r).pos == q,
            Err(e) => res is Err && res->Err_0 == e,
        },
{
    let ghost d = r.data@;
    let ghost p0 = r.pos as int;
    let ghost f = |d: Seq<u8>, q: int| dec_u32s(d, q, c as nat);
    let mut rows: Vec<Vec<u32>> = Vec::new();
    assert(crate::palette::key_views(rows@) =~= Seq::<Seq<u32>>::empty());
    for k in 0..nv
        invariant
            r.data@ == d,
            r.pos <= d.len(),
            d == old(r).data@,
            p0 == old(r).pos as int,
            f == (|d: Seq<u8>, q: int| dec_u32s(d, q, c as nat)),
            dec_rep(d, p0, k as nat, f) == Ok::<(Seq<Seq<u32>>, int), DecodeError>((crate::palette::key_views(rows@), r.pos as int)),
    {
        match read_u32s(r, c) {
            Ok(x) => {
                let ghost xv = x@;
                rows.push(x);
                assert(crate::palette::key_views(rows@) =~= dec_rep(d, p0, k as nat, f)->Ok_0.0.push(xv));
            },
            Err(e) => {
                proof {
                    lemma_rep_err(d, p0, (k + 1) as nat, nv as nat, f);
                }
                return Err(e);
            },
        }
    }
    Ok(rows)
}

fn read_colors_section(r: &mut Reader, nv: usize) -> (res: Result<Vec<Vec<u32>>, DecodeError>)
    requires
        old(r).pos <= old(r).data@.len(),
    ensures
        moved(*old(r), *final(r)),
        match dec_colors_section(old(r).data@, old(r).pos as int, nv as nat) {
            Ok((v, q)) => res is Ok && crate::palette::key_views(res->Ok_0@) == v && final(r).pos == q,
            Err(e) => res is Err && res->Err_0 == e,
        },
{
    let end = match begin_section(r) {
        Ok(x) => x,
        Err(e) => return Err(e),
    };
    let c = match read_count(r) {
        Ok(x) => x,
        Err(e) => return Err(e),
    };
    let rows = match read_rows(r, nv, c) {
        Ok(x) => x,
        Err(e) => return Err(e),
    };
    match end_section(r, end) {
        Ok(()) => Ok(rows),
        Err(e) => Err(e),
    }
}


/// A named color: name reference and palette index.
pub open spec fn dec_pair(d: Seq<u8>, p: int) -> Step<(usize, usize)> {
    match dec_count(d, p) {
        Ok((a, p1)) => match dec_count(d, p1) {
            Ok((b, p2)) => Ok(((a, b), p2)),
            Err(e) => Err(e),
        },
        Err(e) => Err(e),
    }
}

/// The named colors section.
pub open spec fn dec_named_section(d: Seq<u8>, p: int) -> Step<Seq<(usize, usize)>> {
    match dec_begin(d, p) {
        Ok((end, p1)) => match dec_count(d, p1) {
            Ok((n, p2)) => match dec_rep(d, p2, n as nat, |d: Seq<u8>, q: int| dec_pair(d, q)) {
                Ok((v, p3)) => match dec_end(p3, end) {
                    Ok(q) => Ok((v, q)),
                    Err(e) => Err(e),
                },
                Err(e) => Err(e),
            },
            Err(e) => Err(e),
        },
        Err(e) => Err(e),
    }
}

fn read_pairs(r: &mut Reader, n: usize) -> (res: Result<Vec<(usize, usize)>, DecodeError>)
    requires
        old(r).pos <= old(r).data@.len(),
    ensures
        moved(*old(r), *final(r)),
        match dec_rep(old(r).data@, old(r).pos as int, n as nat, |d: Seq<u8>, q: int| dec_pair(d, q)) {
            Ok((v, q)) => res is Ok && res->Ok_0@ == v && final(r).pos == q,
            Err(e) => res is Err && res->Err_0 == e,
        },
{
    let ghost d = r.data@;
    let ghost p0 = r.pos as int;
    let ghost f = |d: Seq<u8>, q: int| dec_pair(d, q);
    let mut v: Vec<(usize, usize)> = Vec::new();
    for k in 0..n
        invariant
            r.data@ == d,
            r.pos <= d.len(),
            d == old(r).data@,
            p0 == old(r).pos as int,
            f == (|d: Seq<u8>, q: int| dec_pair(d, q)),
            dec_rep(d, p0, k as nat, f) == Ok::<(Seq<(usize, usize)>, int), DecodeError>((v@, r.pos as int)),
    {
        let a = match read_count(r) {
            Ok(x) => x,
            Err(e) => {
                proof {
                    lemma_rep_err(d, p0, (k + 1) as nat, n as nat, f);
                }
                return Err(e);
            },
        };
        let b = match read_count(r) {
            Ok(x) => x,
            Err(e) => {
                proof {
                    lemma_rep_err(d, p0, (k + 1) as nat, n as nat, f);
                }
                return Err(e);
            },
        };
        v.push((a, b));
    }
    Ok(v)
}

fn read_named_section(r: &mut Reader) -> (res: Result<Vec<(usize, usize)>, DecodeError>)
    requires
        old(r).pos <= old(r).data@.len(),
    ensures
        moved(*old(r), *final(r)),
        follows(res, dec_named_section(old(r).data@, old(r).pos as int), final(r).pos as int),
{
    let end = match begin_section(r) {
        Ok(x) => x,
        Err(e) => return Err(e),
    };
    let n = match read_count(r) {
        Ok(x) => x,
        Err(e) => return Err(e),
    };
    let v = match read_pairs(r, n) {
        Ok(x) => x,
        Err(e) => return Err(e),
    };
    match end_section(r, end) {
        Ok(()) => Ok(v),
        Err(e) => Err(e),
    }
}

/// Six varints.
pub open spec fn dec_counts(d: Seq<u8>, p: int) -> Step<Seq<u64>> {
    dec_rep(d, p, 6, |d: Seq<u8>, q: int| dec_varuint(d, q))
}

/// The rule counts section (only read past).
pub open spec fn dec_counts_section(d: Seq<u8>, p: int) -> Step<Seq<u64>> {
    match dec_begin(d, p) {
        Ok((end, p1)) => match dec_counts(d, p1) {
            Ok((v, p2)) => match dec_end(p2, end) {
                Ok(q) => Ok((v, q)),
                Err(e) => Err(e),
            },
            Err(e) => Err(e),
        },
        Err(e) => Err(e),
    }
}

fn read_counts(r: &mut Reader) -> (res: Result<Vec<u64>, DecodeError>)
    requires
        old(r).pos <= old(r).data@.len(),
    ensures
        moved(*old(r), *final(r)),
        follows(res, dec_counts(old(r).data@, old(r).pos as int), final(r).pos as int),
{
    let ghost d = r.data@;
    let ghost p0 = r.pos as int;
    let ghost f = |d: Seq<u8>, q: int| dec_varuint(d, q);
    let mut v: Vec<u64> = Vec::new();
    for k in 0..6usize
        invariant
            r.data@ == d,
            r.pos <= d.len(),
            d == old(r).data@,
            p0 == old(r).pos as int,
            f == (|d: Seq<u8>, q: int| dec_varuint(d, q)),
            dec_rep(d, p0, k as nat, f) == Ok::<(Seq<u64>, int), DecodeError>((v@, r.pos as int)),
    {
        match r.varuint() {
            Ok(x) => {
                v.push(x);
            },
            Err(e) => {
                proof {
                    lemma_rep_err(d, p0, (k + 1) as nat, 6, f);
                }
                return Err(e);
            },
        }
    }
    Ok(v)
}

fn read_counts_section(r: &mut Reader) -> (res: Result<Vec<u64>, DecodeError>)
    requires
        old(r).pos <= old(r).data@.len(),
    ensures
        moved(*old(r), *final(r)),
        follows(res, dec_counts_section(old(r).data@, old(r).pos as int), final(r).pos as int),
{
    let end = match begin_section(r) {
        Ok(x) => x,
        Err(e) => return Err(e),
    };
    let v = match read_counts(r) {
        Ok(x) => x,
        Err(e) => return Err(e),
    };
    match end_section(r, end) {
        Ok(()) => Ok(v),
        Err(e) => Err(e),
    }
}

/// The types section.
pub open spec fn dec_types_section(d: Seq<u8>, p: int, strs: Seq<Seq<char>>) -> Step<Seq<(Seq<char>, Seq<DrawElementView>)>> {
    match dec_begin(d, p) {
        Ok((end, p1)) => match dec_count(d, p1) {
            Ok((n, p2)) => match dec_rep(d, p2, n as nat, |d: Seq<u8>, q: int| dec_type(d, q, strs)) {
                Ok((v, p3)) => match dec_end(p3, end) {
                    Ok(q) => Ok((v, q)),
                    Err(e) => Err(e),
                },
                Err(e) => Err(e),
            },
            Err(e) => Err(e),
        },
        Err(e) => Err(e),
    }
}

fn read_types(r: &mut Reader, n: usize, strs: &Vec<String>) -> (res: Result<Vec<(String, Vec<DrawElement>)>, DecodeError>)
    requires
        old(r).pos <= old(r).data@.len(),
    ensures
        moved(*old(r), *final(r)),
        match dec_rep(old(r).data@, old(r).pos as int, n as nat, |d: Seq<u8>, q: int| dec_type(d, q, texts(strs@))) {
            Ok((v, q)) => res is Ok && type_views(res->Ok_0@) == v && final(r).pos == q,
            Err(e) => res is Err && res->Err_0 == e,
        },
{
    let ghost d = r.data@;
    let ghost p0 = r.pos as int;
    let ghost f = |d: Seq<u8>, q: int| dec_type(d, q, texts(strs@));
    let mut v: Vec<(String, Vec<DrawElement>)> = Vec::new();
    assert(type_views(v@) =~= Seq::<(Seq<char>, Seq<DrawElementView>)>::empty());
    for k in 0..n
        invariant
            r.data@ == d,
            r.pos <= d.len(),
            d == old(r).data@,
            p0 == old(r).pos as int,
            f == (|d: Seq<u8>, q: int| dec_type(d, q, texts(strs@))),
            dec_rep(d, p0, k as nat, f) == Ok::<(Seq<(Seq<char>, Seq<DrawElementView>)>, int), DecodeError>((type_views(v@), r.pos as int)),
    {
        match read_type(r, strs) {
            Ok(x) => {
                let ghost xv = (x.0@, x.1@.map_values(|e: DrawElement| e@));
                v.push(x);
                assert(type_views(v@) =~= dec_rep(d, p0, k as nat, f)->Ok_0.0.push(xv));
            },
            Err(e) => {
                proof {
                    lemma_rep_err(d, p0, (k + 1) as nat, n as nat, f);
                }
                return Err(e);
            },
        }
    }
    Ok(v)
}

fn read_types_section(r: &mut Reader, strs: &Vec<String>) -> (res: Result<Vec<(String, Vec<DrawElement>)>, DecodeError>)
    requires
        old(r).pos <= old(r).data@.len(),
    ensures
        moved(*old(r), *final(r)),
        match dec_types_section(old(r).data@, old(r).pos as int, texts(strs@)) {
            Ok((v, q)) => res is Ok && type_views(res->Ok_0@) == v && final(r).pos == q,
            Err(e) => res is Err && res->Err_0 == e,
        },
{
    let end = match begin_section(r) {
        Ok(x) => x,
        Err(e) => return Err(e),
    };
    let n = match read_count(r) {
        Ok(x) => x,
        Err(e) => return Err(e),
    };
    let v = match read_types(r, n, strs) {
        Ok(x) => x,
        Err(e) => return Err(e),
    };
    match end_section(r, end) {
        Ok(()) => Ok(v),
        Err(e) => Err(e),
    }
}

/// One override: type index, element index, element (read past).
pub open spec fn dec_override(d: Seq<u8>, p: int, strs: Seq<Seq<char>>) -> Step<DrawElementView> {
    match dec_varuint(d, p) {
        Ok((_t, p1)) => match dec_varuint(d, p1) {
            Ok((_e, p2)) => dec_element(d, p2, strs),
            Err(e) => Err(e),
        },
        Err(e) => Err(e),
    }
}

/// The overrides of one variant.
pub open spec fn dec_overrides(d: Seq<u8>, p: int, strs: Seq<Seq<char>>) -> Step<Seq<DrawElementView>> {
    match dec_count(d, p) {
        Ok((n, p1)) => dec_rep(d, p1, n as nat, |d: Seq<u8>, q: int| dec_override(d, q, strs)),
        Err(e) => Err(e),
    }
}

/// The overrides section: one list per variant.
pub open spec fn dec_overrides_section(d: Seq<u8>, p: int, nv: nat, strs: Seq<Seq<char>>) -> Step<Seq<Seq<DrawElementView>>> {
    match dec_begin(d, p) {
        Ok((end, p1)) => match dec_rep(d, p1, nv, |d: Seq<u8>, q: int| dec_overrides(d, q, strs)) {
            Ok((v, p2)) => match dec_end(p2, end) {
                Ok(q) => Ok((v, q)),
                Err(e) => Err(e),
            },
            Err(e) => Err(e),
        },
        Err(e) => Err(e),
    }
}

fn read_override(r: &mut Reader, strs: &Vec<String>) -> (res: Result<DrawElement, DecodeError>)
    requires
        old(r).pos <= old(r).data@.len(),
    ensures
        moved(*old(r), *final(r)),
        follows(res, dec_override(old(r).data@, old(r).pos as int, texts(strs@)), final(r).pos as int),
{
    match r.varuint() {
        Ok(_) => {},
        Err(e) => return Err(e),
    }
    match r.varuint() {
        Ok(_) => {},
        Err(e) => return Err(e),
    }
    read_element(r, strs)
}

fn read_overrides(r: &mut Reader, strs: &Vec<String>) -> (res: Result<Vec<DrawElement>, DecodeError>)
    requires
        old(r).pos <= old(r).data@.len(),
    ensures
        moved(*old(r), *final(r)),
        match dec_overrides(old(r).data@, old(r).pos as int, texts(strs@)) {
            Ok((v, q)) => res is Ok && res->Ok_0@.map_values(|e: DrawElement| e@) == v && final(r).pos == q,
            Err(e) => res is Err && res->Err_0 == e,
        },
{
    let n = match read_count(r) {
        Ok(x) => x,
        Err(e) => return Err(e),
    };
    let ghost d = r.data@;
    let ghost p0 = r.pos as int;
    let ghost f = |d: Seq<u8>, q: int| dec_override(d, q, texts(strs@));
    let mut v: Vec<DrawElement> = Vec::new();
    assert(v@.map_values(|e: DrawElement| e@) =~= Seq::<DrawElementView>::empty());
    for k in 0..n
        invariant
            r.data@ == d,
            r.pos <= d.len(),
            d == old(r).data@,
            dec_count(d, old(r).pos as int) == Ok::<(usize, int), DecodeError>((n, p0)),
            f == (|d: Seq<u8>, q: int| dec_override(d, q, texts(strs@))),
            dec_rep(d, p0, k as nat, f) == Ok::<(Seq<DrawElementView>, int), DecodeError>((v@.map_values(|e: DrawElement| e@), r.pos as int)),
    {
        match read_override(r, strs) {
            Ok(x) => {
                let ghost xv = x@;
                v.push(x);
                assert(v@.map_values(|e: DrawElement| e@) =~= dec_rep(d, p0, k as nat, f)->Ok_0.0.push(xv));
            },
            Err(e) => {
                proof {
                    lemma_rep_err(d, p0, (k + 1) as nat, n as nat, f);
                }
                return Err(e);
            },
        }
    }
    Ok(v)
}

fn read_overrides_section(r: &mut Reader, nv: usize, strs: &Vec<String>) -> (res: Result<(), DecodeError>)
    requires
        old(r).pos <= old(r).data@.len(),
    ensures
        moved(*old(r), *final(r)),
        match dec_overrides_section(old(r).data@, old(r).pos as int, nv as nat, texts(strs@)) {
            Ok((_v, q)) => res is Ok && final(r).pos == q,
            Err(e) => res is Err && res->Err_0 == e,
        },
{
    let end = match begin_section(r) {
        Ok(x) => x,
        Err(e) => return Err(e),
    };
    let ghost d = r.data@;
    let ghost p0 = r.pos as int;
    let ghost f = |d: Seq<u8>, q: int| dec_overrides(d, q, texts(strs@));
    let ghost mut acc: Seq<Seq<DrawElementView>> = Seq::empty();
    for k in 0..nv
        invariant
            r.data@ == d,
            r.pos <= d.len(),
            d == old(r).data@,
            end <= d.len(),
            dec_begin(d, old(r).pos as int) == Ok::<(int, int), DecodeError>((end as int, p0)),
            f == (|d: Seq<u8>, q: int| dec_overrides(d, q, texts(strs@))),
            dec_rep(d, p0, k as nat, f) == Ok::<(Seq<Seq<DrawElementView>>, int), DecodeError>((acc, r.pos as int)),
    {
        match read_overrides(r, strs) {
            Ok(x) => {
                proof {
                    acc = acc.push(x@.map_values(|e: DrawElement| e@));
                }
            },
            Err(e) => {
                proof {
                    lemma_rep_err(d, p0, (k + 1) as nat, nv as nat, f);
                }
                return Err(e);
            },
        }
    }
    end_section(r, end)
}


// ------------------------------------------------------------------ header

/// The magic bytes at `p`.
pub open spec fn dec_magic(d: Seq<u8>, p: int) -> Step<()> {
    if 0 <= p && p + 4 <= d.len() {
        if d.subrange(p, p + 4) == magic() {
            Ok(((), p + 4))
        } else {
            Err(DecodeError::BadMagic)
        }
    } else {
        Err(DecodeError::Truncated)
    }
}

/// Magic, version, variant count and names.
pub open spec fn dec_header(d: Seq<u8>) -> Step<Seq<Seq<char>>> {
    match dec_magic(d, 0) {
        Ok((_m, p1)) => match dec_u8(d, p1) {
            Ok((v, p2)) => if v != VERSION {
                Err(DecodeError::BadVersion(v))
            } else {
                match dec_u8(d, p2) {
                    Ok((n, p3)) => dec_strings(d, p3, n as nat),
                    Err(e) => Err(e),
                }
            },
            Err(e) => Err(e),
        },
        Err(e) => Err(e),
    }
}

fn read_header(r: &mut Reader) -> (res: Result<Vec<String>, DecodeError>)
    requires
        old(r).pos == 0,
    ensures
        moved(*old(r), *final(r)),
        match dec_header(old(r).data@) {
            Ok((v, q)) => res is Ok && texts(res->Ok_0@) == v && final(r).pos == q,
            Err(e) => res is Err && res->Err_0 == e,
        },
{
    if r.data.len() < 4 {
        return Err(DecodeError::Truncated);
    }
    let ok = r.data[0] == 79u8 && r.data[1] == 77u8 && r.data[2] == 68u8 && r.data[3] == 82u8;
    assert(ok == (r.data@.subrange(0, 4) == magic())) by {
        if ok {
            assert(r.data@.subrange(0, 4) =~= magic());
        } else if r.data@.subrange(0, 4) == magic() {
            assert(r.data@.subrange(0, 4)[0] == r.data@[0]);
            assert(r.data@.subrange(0, 4)[1] == r.data@[1]);
            assert(r.data@.subrange(0, 4)[2] == r.data@[2]);
            assert(r.data@.subrange(0, 4)[3] == r.data@[3]);
        }
    }
    if !ok {
        return Err(DecodeError::BadMagic);
    }
    r.pos = 4;
    let v = match r.u8() {
        Ok(x) => x,
        Err(e) => return Err(e),
    };
    if v != VERSION {
        return Err(DecodeError::BadVersion(v));
    }
    let n = match r.u8() {
        Ok(x) => x,
        Err(e) => return Err(e),
    };
    read_strings(r, n as usize)
}

// ------------------------------------------------------------------ resolving colors

pub open spec fn in_pal(pal: Seq<u32>, c: u32) -> bool {
    (c as int) < pal.len()
}

pub open spec fn caption_def_ok(d: CaptionDefView, pal: Seq<u32>) -> bool {
    d.is_set() ==> in_pal(pal, d.color) && in_pal(pal, d.stroke_color)
}

pub open spec fn caption_ok(c: CaptionRuleView, pal: Seq<u32>) -> bool {
    c.is_set() ==> caption_def_ok(c.primary, pal) && caption_def_ok(c.secondary, pal)
}

/// Every palette index that the element's set rules hold is in the palette.
pub open spec fn element_ok(e: DrawElementView, pal: Seq<u32>) -> bool {
    &&& forall|k: int| 0 <= k < e.lines.len() ==> in_pal(pal, #[trigger] e.lines[k].color)
    &&& e.area.is_set() ==> in_pal(pal, e.area.color) && (e.area.border.is_set() ==> in_pal(pal, e.area.border.color))
    &&& caption_ok(e.caption, pal)
    &&& caption_ok(e.path_text, pal)
    &&& e.shield.is_set() ==> in_pal(pal, e.shield.color) && in_pal(pal, e.shield.stroke_color) && in_pal(
        pal,
        e.shield.text_color,
    ) && in_pal(pal, e.shield.text_stroke_color)
}

pub open spec fn resolved_caption_def(d: CaptionDefView, pal: Seq<u32>) -> CaptionDefView {
    if d.is_set() {
        CaptionDefView { color: pal[d.color as int], stroke_color: pal[d.stroke_color as int], ..d }
    } else {
        d
    }
}

pub open spec fn resolved_caption(c: CaptionRuleView, pal: Seq<u32>) -> CaptionRuleView {
    if c.is_set() {
        CaptionRuleView {
            primary: resolved_caption_def(c.primary, pal),
            secondary: resolved_caption_def(c.secondary, pal),
            ..c
        }
    } else {
        c
    }
}

/// The element with the palette colors of `pal` in place of the indices
/// its set rules hold.
pub open spec fn resolved_element(e: DrawElementView, pal: Seq<u32>) -> DrawElementView {
    DrawElementView {
        lines: Seq::new(e.lines.len(), |k: int| LineRuleView { color: pal[e.lines[k].color as int], ..e.lines[k] }),
        area: if e.area.is_set() {
            AreaRuleView {
                color: pal[e.area.color as int],
                border: if e.area.border.is_set() {
                    LineDefView { color: pal[e.area.border.color as int], ..e.area.border }
                } else {
                    e.area.border
                },
                ..e.area
            }
        } else {
            e.area
        },
        caption: resolved_caption(e.caption, pal),
        path_text: resolved_caption(e.path_text, pal),
        shield: if e.shield.is_set() {
            ShieldRuleView {
                color: pal[e.shield.color as int],
                stroke_color: pal[e.shield.stroke_color as int],
                text_color: pal[e.shield.text_color as int],
                text_stroke_color: pal[e.shield.text_stroke_color as int],
                ..e.shield
            }
        } else {
            e.shield
        },
        ..e
    }
}

/// The named colors of one variant, or the error of the first entry whose
/// name or color index is out of range.
pub open spec fn res_named(named: Seq<(usize, usize)>, strs: Seq<Seq<char>>, pal: Seq<u32>, m: nat) -> Result<Seq<ColorElementView>, DecodeError>
    decreases m,
{
    if m == 0 {
        Ok(Seq::empty())
    } else {
        match res_named(named, strs, pal, (m - 1) as nat) {
            Ok(vs) => {
                let (ni, ci) = named[m - 1];
                if ni as int >= strs.len() {
                    Err(DecodeError::BadStringIndex)
                } else if ci as int >= pal.len() {
                    Err(DecodeError::BadColorIndex)
                } else {
                    Ok(vs.push(ColorElementView { present: true, name: strs[ni as int], color: pal[ci as int] }))
                }
            },
            Err(e) => Err(e),
        }
    }
}

/// Every element of every type can take the colors of `pal`.
pub open spec fn types_ok(types: Seq<(Seq<char>, Seq<DrawElementView>)>, pal: Seq<u32>) -> bool {
    forall|t: int, j: int| 0 <= t < types.len() && 0 <= j < types[t].1.len() ==> element_ok(#[trigger] types[t].1[j], pal)
}

pub open spec fn resolved_types(types: Seq<(Seq<char>, Seq<DrawElementView>)>, pal: Seq<u32>) -> Seq<ClassifElementView> {
    Seq::new(
        types.len(),
        |t: int| ClassifElementView {
            present: true,
            name: types[t].0,
            element: Seq::new(types[t].1.len(), |j: int| resolved_element(types[t].1[j], pal)),
        },
    )
}

/// The container of the variant whose colors are `pal`.
pub open spec fn resolve(
    types: Seq<(Seq<char>, Seq<DrawElementView>)>,
    named: Seq<(usize, usize)>,
    strs: Seq<Seq<char>>,
    pal: Seq<u32>,
) -> Result<ContainerView, DecodeError> {
    match res_named(named, strs, pal, named.len()) {
        Ok(colors) => if types_ok(types, pal) {
            Ok(
                ContainerView {
                    present: false,
                    colors: ColorsElementView { present: false, value: colors },
                    cont: resolved_types(types, pal),
                },
            )
        } else {
            Err(DecodeError::BadColorIndex)
        },
        Err(e) => Err(e),
    }
}

/// The containers of the first `m` variants, or the first error.
pub open spec fn res_all(
    types: Seq<(Seq<char>, Seq<DrawElementView>)>,
    named: Seq<(usize, usize)>,
    strs: Seq<Seq<char>>,
    rows: Seq<Seq<u32>>,
    m: nat,
) -> Result<Seq<ContainerView>, DecodeError>
    decreases m,
{
    if m == 0 {
        Ok(Seq::empty())
    } else {
        match res_all(types, named, strs, rows, (m - 1) as nat) {
            Ok(cs) => match resolve(types, named, strs, rows[m - 1]) {
                Ok(c) => Ok(cs.push(c)),
                Err(e) => Err(e),
            },
            Err(e) => Err(e),
        }
    }
}

fn pal_color(pal: &Vec<u32>, c: u32) -> (r: Option<u32>)
    ensures
        match r {
            Some(v) => in_pal(pal@, c) && v == pal@[c as int],
            None => !in_pal(pal@, c),
        },
{
    if (c as usize) < pal.len() && (c as u64) < (pal.len() as u64) {
        Some(pal[c as usize])
    } else {
        None
    }
}

fn resolve_caption_def(d: &CaptionDef, pal: &Vec<u32>) -> (r: Option<CaptionDef>)
    ensures
        match r {
            Some(v) => caption_def_ok(d@, pal@) && v@ == resolved_caption_def(d@, pal@),
            None => !caption_def_ok(d@, pal@),
        },
{
    let mut v = d.clone();
    if d.is_set() {
        match pal_color(pal, d.color) {
            Some(c) => v.color = c,
            None => return None,
        }
        match pal_color(pal, d.stroke_color) {
            Some(c) => v.stroke_color = c,
            None => return None,
        }
    }
    Some(v)
}

fn resolve_caption(c: &CaptionRule, pal: &Vec<u32>) -> (r: Option<CaptionRule>)
    ensures
        match r {
            Some(v) => caption_ok(c@, pal@) && v@ == resolved_caption(c@, pal@),
            None => !caption_ok(c@, pal@),
        },
{
    if c.is_set() {
        let primary = match resolve_caption_def(&c.primary, pal) {
            Some(x) => x,
            None => return None,
        };
        let secondary = match resolve_caption_def(&c.secondary, pal) {
            Some(x) => x,
            None => return None,
        };
        Some(CaptionRule { present: c.present, priority: c.priority, primary, secondary })
    } else {
        Some(c.clone())
    }
}

fn resolve_lines(lines: &Vec<LineRule>, pal: &Vec<u32>) -> (r: Option<Vec<LineRule>>)
    ensures
        match r {
            Some(v) => (forall|k: int| 0 <= k < lines@.len() ==> in_pal(pal@, #[trigger] lines@[k].color))
                && v@.map_values(|l: LineRule| l@) == Seq::new(
                lines@.len(),
                |k: int| LineRuleView { color: pal@[lines@[k]@.color as int], ..lines@[k]@ },
            ),
            None => !(forall|k: int| 0 <= k < lines@.len() ==> in_pal(pal@, #[trigger] lines@[k].color)),
        },
{
    let mut v: Vec<LineRule> = Vec::new();
    for k in 0..lines.len()
        invariant
            v@.len() == k,
            forall|q: int| 0 <= q < k ==> in_pal(pal@, #[trigger] lines@[q].color),
            forall|q: int| 0 <= q < k ==> #[trigger] v@[q]@ == (LineRuleView { color: pal@[lines@[q]@.color as int], ..lines@[q]@ }),
    {
        let mut l = lines[k].clone();
        match pal_color(pal, lines[k].color) {
            Some(c) => l.color = c,
            None => return None,
        }
        v.push(l);
    }
    assert(v@.map_values(|l: LineRule| l@) =~= Seq::new(
        lines@.len(),
        |k: int| LineRuleView { color: pal@[lines@[k]@.color as int], ..lines@[k]@ },
    ));
    Some(v)
}

fn resolve_area(a: &AreaRule, pal: &Vec<u32>) -> (r: Option<AreaRule>)
    ensures
        match r {
            Some(v) => (a@.is_set() ==> in_pal(pal@, a@.color) && (a@.border.is_set() ==> in_pal(pal@, a@.border.color)))
                && v@ == (if a@.is_set() {
                AreaRuleView {
                    color: pal@[a@.color as int],
                    border: if a@.border.is_set() {
                        LineDefView { color: pal@[a@.border.color as int], ..a@.border }
                    } else {
                        a@.border
                    },
                    ..a@
                }
            } else {
                a@
            }),
            None => !(a@.is_set() ==> in_pal(pal@, a@.color) && (a@.border.is_set() ==> in_pal(pal@, a@.border.color))),
        },
{
    let mut v = a.clone();
    if a.is_set() {
        match pal_color(pal, a.color) {
            Some(c) => v.color = c,
            None => return None,
        }
        if a.border.is_set() {
            match pal_color(pal, a.border.color) {
                Some(c) => v.border.color = c,
                None => return None,
            }
        }
    }
    Some(v)
}

fn resolve_shield(s: &ShieldRule, pal: &Vec<u32>) -> (r: Option<ShieldRule>)
    ensures
        match r {
            Some(v) => (s@.is_set() ==> in_pal(pal@, s@.color) && in_pal(pal@, s@.stroke_color) && in_pal(pal@, s@.text_color)
                && in_pal(pal@, s@.text_stroke_color)) && v@ == (if s@.is_set() {
                ShieldRuleView {
                    color: pal@[s@.color as int],
                    stroke_color: pal@[s@.stroke_color as int],
                    text_color: pal@[s@.text_color as int],
                    text_stroke_color: pal@[s@.text_stroke_color as int],
                    ..s@
                }
            } else {
                s@
            }),
            None => !(s@.is_set() ==> in_pal(pal@, s@.color) && in_pal(pal@, s@.stroke_color) && in_pal(pal@, s@.text_color)
                && in_pal(pal@, s@.text_stroke_color)),
        },
{
    let mut v = s.clone();
    if s.is_set() {
        match pal_color(pal, s.color) {
            Some(c) => v.color = c,
            None => return None,
        }
        match pal_color(pal, s.stroke_color) {
            Some(c) => v.stroke_color = c,
            None => return None,
        }
        match pal_color(pal, s.text_color) {
            Some(c) => v.text_color = c,
            None => return None,
        }
        match pal_color(pal, s.text_stroke_color) {
            Some(c) => v.text_stroke_color = c,
            None => return None,
        }
    }
    Some(v)
}

/// The element with the colors of `pal` in place of its palette indices.
fn resolve_element(e: &DrawElement, pal: &Vec<u32>) -> (r: Option<DrawElement>)
    ensures
        match r {
            Some(v) => element_ok(e@, pal@) && v@ == resolved_element(e@, pal@),
            None => !element_ok(e@, pal@),
        },
{
    let lines = match resolve_lines(&e.lines, pal) {
        Some(x) => x,
        None => {
            let ghost k = choose|k: int| 0 <= k < e.lines@.len() && !in_pal(pal@, #[trigger] e.lines@[k].color);
            assert(e@.lines[k].color == e.lines@[k].color);
            return None;
        },
    };
    assert forall|k: int| 0 <= k < e@.lines.len() implies in_pal(pal@, #[trigger] e@.lines[k].color) by {
        assert(e@.lines[k].color == e.lines@[k].color);
    }
    let area = match resolve_area(&e.area, pal) {
        Some(x) => x,
        None => return None,
    };
    let caption = match resolve_caption(&e.caption, pal) {
        Some(x) => x,
        None => return None,
    };
    let path_text = match resolve_caption(&e.path_text, pal) {
        Some(x) => x,
        None => return None,
    };
    let shield = match resolve_shield(&e.shield, pal) {
        Some(x) => x,
        None => return None,
    };
    let r = DrawElement {
        present: e.present,
        scale: e.scale,
        apply_if: crate::text::clone_strings(&e.apply_if),
        area,
        symbol: e.symbol.clone(),
        caption,
        path_text,
        shield,
        lines,
    };
    assert(r@.lines =~= resolved_element(e@, pal@).lines);
    Some(r)
}


fn resolve_named(named: &Vec<(usize, usize)>, strs: &Vec<String>, pal: &Vec<u32>) -> (r: Result<Vec<ColorElement>, DecodeError>)
    ensures
        match res_named(named@, texts(strs@), pal@, named@.len()) {
            Ok(v) => r is Ok && r->Ok_0@.map_values(|c: ColorElement| c@) == v,
            Err(e) => r is Err && r->Err_0 == e,
        },
{
    let mut v: Vec<ColorElement> = Vec::new();
    assert(v@.map_values(|c: ColorElement| c@) =~= Seq::<ColorElementView>::empty());
    for m in 0..named.len()
        invariant
            res_named(named@, texts(strs@), pal@, m as nat) == Ok::<Seq<ColorElementView>, DecodeError>(v@.map_values(|c: ColorElement| c@)),
    {
        let (ni, ci) = named[m];
        if ni >= strs.len() {
            proof {
                lemma_named_err(named@, texts(strs@), pal@, (m + 1) as nat, named@.len());
            }
            return Err(DecodeError::BadStringIndex);
        }
        if ci >= pal.len() {
            proof {
                lemma_named_err(named@, texts(strs@), pal@, (m + 1) as nat, named@.len());
            }
            return Err(DecodeError::BadColorIndex);
        }
        let mut c = ColorElement::new();
        c.set_name(strs[ni].as_str());
        c.set_color(pal[ci]);
        let ghost cv = c@;
        v.push(c);
        assert(v@.map_values(|c: ColorElement| c@) =~= res_named(named@, texts(strs@), pal@, m as nat)->Ok_0.push(cv));
    }
    Ok(v)
}

proof fn lemma_named_err(named: Seq<(usize, usize)>, strs: Seq<Seq<char>>, pal: Seq<u32>, k: nat, n: nat)
    requires
        k <= n,
        res_named(named, strs, pal, k) is Err,
    ensures
        res_named(named, strs, pal, n) == res_named(named, strs, pal, k),
    decreases n,
{
    if k < n {
        lemma_named_err(named, strs, pal, k, (n - 1) as nat);
    }
}

fn resolve_type(t: &(String, Vec<DrawElement>), pal: &Vec<u32>) -> (r: Option<ClassifElement>)
    ensures
        match r {
            Some(c) => (forall|j: int| 0 <= j < t.1@.len() ==> element_ok(#[trigger] t.1@[j]@, pal@)) && c@ == (ClassifElementView {
                present: true,
                name: t.0@,
                element: Seq::new(t.1@.len(), |j: int| resolved_element(t.1@[j]@, pal@)),
            }),
            None => !(forall|j: int| 0 <= j < t.1@.len() ==> element_ok(#[trigger] t.1@[j]@, pal@)),
        },
{
    let mut els: Vec<DrawElement> = Vec::new();
    for j in 0..t.1.len()
        invariant
            els@.len() == j,
            forall|q: int| 0 <= q < j ==> element_ok(#[trigger] t.1@[q]@, pal@),
            forall|q: int| 0 <= q < j ==> #[trigger] els@[q]@ == resolved_element(t.1@[q]@, pal@),
    {
        match resolve_element(&t.1[j], pal) {
            Some(e) => els.push(e),
            None => return None,
        }
    }
    let mut c = ClassifElement::new();
    c.set_name(t.0.as_str());
    let c2 = ClassifElement { present: c.present, name: c.name, element: els };
    assert(c2@.element =~= Seq::new(t.1@.len(), |j: int| resolved_element(t.1@[j]@, pal@)));
    Some(c2)
}

/// The container of the variant whose colors are `pal`.
fn resolve_container(
    types: &Vec<(String, Vec<DrawElement>)>,
    named: &Vec<(usize, usize)>,
    strs: &Vec<String>,
    pal: &Vec<u32>,
) -> (r: Result<Container, DecodeError>)
    ensures
        match resolve(type_views(types@), named@, texts(strs@), pal@) {
            Ok(c) => r is Ok && r->Ok_0@ == c,
            Err(e) => r is Err && r->Err_0 == e,
        },
{
    let ghost tv = type_views(types@);
    let colors = match resolve_named(named, strs, pal) {
        Ok(x) => x,
        Err(e) => return Err(e),
    };
    let mut cont: Vec<ClassifElement> = Vec::new();
    for t in 0..types.len()
        invariant
            tv == type_views(types@),
            res_named(named@, texts(strs@), pal@, named@.len()) == Ok::<Seq<ColorElementView>, DecodeError>(
                colors@.map_values(|c: ColorElement| c@),
            ),
            cont@.len() == t,
            forall|a: int, j: int| 0 <= a < t && 0 <= j < tv[a].1.len() ==> element_ok(#[trigger] tv[a].1[j], pal@),
            forall|a: int| 0 <= a < t ==> #[trigger] cont@[a]@ == resolved_types(tv, pal@)[a],
    {
        match resolve_type(&types[t], pal) {
            Some(c) => {
                assert(tv[t as int].1 == types@[t as int].1@.map_values(|e: DrawElement| e@));
                assert(c@ == resolved_types(tv, pal@)[t as int]) by {
                    assert(c@.element =~= resolved_types(tv, pal@)[t as int].element);
                }
                cont.push(c);
            },
            None => {
                let ghost j = choose|j: int| 0 <= j < types@[t as int].1@.len() && !element_ok(#[trigger] types@[t as int].1@[j]@, pal@);
                assert(tv[t as int].1[j] == types@[t as int].1@[j]@);
                assert(!types_ok(tv, pal@));
                return Err(DecodeError::BadColorIndex);
            },
        }
    }
    assert(types_ok(tv, pal@));
    let r = Container {
        present: false,
        colors: ColorsElement { present: false, value: colors },
        cont,
    };
    assert(r@.cont =~= resolved_types(tv, pal@));
    Ok(r)
}

// ------------------------------------------------------------------ the blob

/// The string table, color rows and named colors of a blob.
pub open spec fn dec_tables(d: Seq<u8>, p: int, nv: nat) -> Step<(Seq<Seq<char>>, Seq<Seq<u32>>, Seq<(usize, usize)>)> {
    match dec_strtab_section(d, p) {
        Ok((strs, p1)) => match dec_colors_section(d, p1, nv) {
            Ok((rows, p2)) => match dec_named_section(d, p2) {
                Ok((named, p3)) => Ok(((strs, rows, named), p3)),
                Err(e) => Err(e),
            },
            Err(e) => Err(e),
        },
        Err(e) => Err(e),
    }
}

/// The rule counts, types and overrides of a blob; gives the types.
pub open spec fn dec_rest(d: Seq<u8>, p: int, nv: nat, strs: Seq<Seq<char>>) -> Step<Seq<(Seq<char>, Seq<DrawElementView>)>> {
    match dec_counts_section(d, p) {
        Ok((_c, p1)) => match dec_types_section(d, p1, strs) {
            Ok((types, p2)) => match dec_overrides_section(d, p2, nv, strs) {
                Ok((_o, p3)) => Ok((types, p3)),
                Err(e) => Err(e),
            },
            Err(e) => Err(e),
        },
        Err(e) => Err(e),
    }
}

/// What a blob holds: the variant names and one container per variant,
/// with the colors of that variant.
pub open spec fn parse_blob(d: Seq<u8>) -> Result<(Seq<Seq<char>>, Seq<ContainerView>), DecodeError> {
    match dec_header(d) {
        Ok((names, p1)) => match dec_tables(d, p1, names.len()) {
            Ok((tb, p2)) => match dec_rest(d, p2, names.len(), tb.0) {
                Ok((types, _p3)) => match res_all(types, tb.2, tb.0, tb.1, tb.1.len()) {
                    Ok(cs) => Ok((names, cs)),
                    Err(e) => Err(e),
                },
                Err(e) => Err(e),
            },
            Err(e) => Err(e),
        },
        Err(e) => Err(e),
    }
}

proof fn lemma_all_err(
    types: Seq<(Seq<char>, Seq<DrawElementView>)>,
    named: Seq<(usize, usize)>,
    strs: Seq<Seq<char>>,
    rows: Seq<Seq<u32>>,
    k: nat,
    n: nat,
)
    requires
        k <= n,
        res_all(types, named, strs, rows, k) is Err,
    ensures
        res_all(types, named, strs, rows, n) == res_all(types, named, strs, rows, k),
    decreases n,
{
    if k < n {
        lemma_all_err(types, named, strs, rows, k, (n - 1) as nat);
    }
}

fn read_tables(r: &mut Reader, nv: usize) -> (res: Result<(Vec<String>, Vec<Vec<u32>>, Vec<(usize, usize)>), DecodeError>)
    requires
        old(r).pos <= old(r).data@.len(),
    ensures
        moved(*old(r), *final(r)),
        match dec_tables(old(r).data@, old(r).pos as int, nv as nat) {
            Ok((v, q)) => res is Ok && texts(res->Ok_0.0@) == v.0 && key_views(res->Ok_0.1@) == v.1 && res->Ok_0.2@ == v.2
                && final(r).pos == q,
            Err(e) => res is Err && res->Err_0 == e,
        },
{
    let strs = match read_strtab_section(r) {
        Ok(x) => x,
        Err(e) => return Err(e),
    };
    let rows = match read_colors_section(r, nv) {
        Ok(x) => x,
        Err(e) => return Err(e),
    };
    let named = match read_named_section(r) {
        Ok(x) => x,
        Err(e) => return Err(e),
    };
    Ok((strs, rows, named))
}

fn read_rest(r: &mut Reader, nv: usize, strs: &Vec<String>) -> (res: Result<Vec<(String, Vec<DrawElement>)>, DecodeError>)
    requires
        old(r).pos <= old(r).data@.len(),
    ensures
        moved(*old(r), *final(r)),
        match dec_rest(old(r).data@, old(r).pos as int, nv as nat, texts(strs@)) {
            Ok((v, q)) => res is Ok && type_views(res->Ok_0@) == v && final(r).pos == q,
            Err(e) => res is Err && res->Err_0 == e,
        },
{
    match read_counts_section(r) {
        Ok(_) => {},
        Err(e) => return Err(e),
    }
    let types = match read_types_section(r, strs) {
        Ok(x) => x,
        Err(e) => return Err(e),
    };
    match read_overrides_section(r, nv, strs) {
        Ok(()) => {},
        Err(e) => return Err(e),
    }
    Ok(types)
}

/// Reads a blob into its variant names and one container per variant.
pub fn decode_blob(data: &[u8]) -> (res: Result<(Vec<String>, Vec<Container>), DecodeError>)
    ensures
        match parse_blob(data@) {
            Ok((names, cs)) => res is Ok && texts(res->Ok_0.0@) == names && container_views(res->Ok_0.1@) == cs,
            Err(e) => res is Err && res->Err_0 == e,
        },
{
    let mut r = Reader { data, pos: 0 };
    let names = match read_header(&mut r) {
        Ok(x) => x,
        Err(e) => return Err(e),
    };
    let nv = names.len();
    let (strs, rows, named) = match read_tables(&mut r, nv) {
        Ok(x) => x,
        Err(e) => return Err(e),
    };
    let types = match read_rest(&mut r, nv, &strs) {
        Ok(x) => x,
        Err(e) => return Err(e),
    };
    let ghost tv = type_views(types@);
    let mut cs: Vec<Container> = Vec::new();
    assert(container_views(cs@) =~= Seq::<ContainerView>::empty());
    let ghost all = res_all(tv, named@, texts(strs@), key_views(rows@), rows@.len());
    assert(parse_blob(data@) == match all {
        Ok(cs) => Ok((texts(names@), cs)),
        Err(e) => Err(e),
    });
    for v in 0..rows.len()
        invariant
            tv == type_views(types@),
            all == res_all(tv, named@, texts(strs@), key_views(rows@), rows@.len()),
            parse_blob(data@) == match all {
                Ok(cs) => Ok((texts(names@), cs)),
                Err(e) => Err::<(Seq<Seq<char>>, Seq<ContainerView>), DecodeError>(e),
            },
            res_all(tv, named@, texts(strs@), key_views(rows@), v as nat) == Ok::<Seq<ContainerView>, DecodeError>(container_views(cs@)),
    {
        assert(key_views(rows@)[v as int] == rows@[v as int]@);
        match resolve_container(&types, &named, &strs, &rows[v]) {
            Ok(c) => {
                let ghost cv = c@;
                cs.push(c);
                assert(container_views(cs@) =~= res_all(tv, named@, texts(strs@), key_views(rows@), v as nat)->Ok_0.push(cv));
            },
            Err(e) => {
                proof {
                    lemma_all_err(tv, named@, texts(strs@), key_views(rows@), (v + 1) as nat, rows@.len());
                }
                return Err(e);
            },
        }
    }
    Ok((names, cs))
}

/// Parses a native blob into the variant names and one container per
/// variant, each holding the color values of its variant.
pub fn parse_binary(data: &[u8]) -> (res: Result<(Vec<String>, Vec<Container>), String>)
    ensures
        match parse_blob(data@) {
            Ok((names, cs)) => res is Ok && texts(res->Ok_0.0@) == names && container_views(res->Ok_0.1@) == cs,
            Err(e) => res is Err && res->Err_0@ == error_text(e),
        },
{
    match decode_blob(data) {
        Ok(x) => Ok(x),
        Err(e) => Err(error_string(&e)),
    }
}


/// The first variant's container of a blob (handy for single-variant files
/// and for tools that only inspect the shared structure).
pub fn load_container(data: &[u8]) -> (res: Result<Container, String>)
    ensures
        match parse_blob(data@) {
            Ok((_names, cs)) => if cs.len() > 0 {
                res is Ok && res->Ok_0@ == cs[0]
            } else {
                res is Err && res->Err_0@ == "No variants in drules file"@
            },
            Err(e) => res is Err && res->Err_0@ == error_text(e),
        },
{
    match decode_blob(data) {
        Ok((_names, mut cs)) => {
            if cs.len() == 0 {
                return Err(crate::text::str_to_string("No variants in drules file"));
            }
            let ghost cv = container_views(cs@);
            let c = cs.swap_remove(0);
            assert(c@ == cv[0]);
            Ok(c)
        },
        Err(e) => Err(error_string(&e)),
    }
}

} // verus!
