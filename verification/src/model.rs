//! Builder messages of the native drawing-rules format.
//!
//! Each message records whether any of its scalars was assigned (`present`);
//! reals are held as IEEE-754 binary64 bit patterns and colors as ARGB values
//! (or palette indices while a file is being written). The view of a message
//! replaces its vectors by sequences of views.

use vstd::prelude::*;
use crate::text::str_to_string;

verus! {

/// Line dash-dot pattern.
pub struct DashDot {
    pub present: bool,
    pub offset: u64,
    pub dd: Vec<u64>,
}

/// The mathematical value of a [`DashDot`].
pub ghost struct DashDotView {
    pub present: bool,
    pub offset: u64,
    pub dd: Seq<u64>,
}

impl View for DashDot {
    type V = DashDotView;

    open spec fn view(&self) -> DashDotView {
        DashDotView {
            present: self.present,
            offset: self.offset,
            dd: self.dd@,
        }
    }
}

impl DashDotView {
    /// Set once any scalar was assigned, a repeated field is non-empty, or a
    /// sub-message is set.
    pub open spec fn is_set(self) -> bool {
        self.present || self.dd.len() > 0
    }

    /// The value of a fresh message.
    pub open spec fn empty() -> DashDotView {
        DashDotView {
            present: false,
            offset: 0,
            dd: Seq::empty(),
        }
    }
}

impl DashDot {
    /// A fresh message: nothing assigned, every repeated field empty.
    pub fn new() -> (r: DashDot)
        ensures
            r@ == DashDotView::empty(),
    {
        let r = DashDot {
            present: false,
            offset: 0,
            dd: Vec::new(),
        };
        r
    }

    /// Assigns `offset`; the message becomes present.
    pub fn set_offset(&mut self, v: u64)
        ensures
            final(self)@ == (DashDotView { present: true, offset: v, ..old(self)@ }),
    {
        self.offset = v;
        self.present = true;
    }

    /// Whether any scalar was assigned, a repeated field is non-empty, or a
    /// sub-message is set.
    pub fn is_set(&self) -> (r: bool)
        ensures
            r == self@.is_set(),
    {
        self.present || !self.dd.is_empty()
    }
}

impl Clone for DashDot {
    fn clone(&self) -> (r: Self)
        ensures
            r@ == self@,
    {
        DashDot {
            present: self.present,
            offset: self.offset,
            dd: self.dd.clone(),
        }
    }
}

/// Repeated path symbol drawn along a line.
pub struct PathSym {
    pub present: bool,
    pub name: String,
    pub step: u64,
    pub offset: u64,
}

/// The mathematical value of a [`PathSym`].
pub ghost struct PathSymView {
    pub present: bool,
    pub name: Seq<char>,
    pub step: u64,
    pub offset: u64,
}

impl View for PathSym {
    type V = PathSymView;

    open spec fn view(&self) -> PathSymView {
        PathSymView {
            present: self.present,
            name: self.name@,
            step: self.step,
            offset: self.offset,
        }
    }
}

impl PathSymView {
    /// Set once any scalar was assigned, a repeated field is non-empty, or a
    /// sub-message is set.
    pub open spec fn is_set(self) -> bool {
        self.present
    }

    /// The value of a fresh message.
    pub open spec fn empty() -> PathSymView {
        PathSymView {
            present: false,
            name: Seq::empty(),
            step: 0,
            offset: 0,
        }
    }
}

impl PathSym {
    /// A fresh message: nothing assigned, every repeated field empty.
    pub fn new() -> (r: PathSym)
        ensures
            r@ == PathSymView::empty(),
    {
        let r = PathSym {
            present: false,
            name: String::new(),
            step: 0,
            offset: 0,
        };
        r
    }

    /// Assigns `name`; the message becomes present.
    pub fn set_name(&mut self, v: &str)
        ensures
            final(self)@ == (PathSymView { present: true, name: v@, ..old(self)@ }),
    {
        self.name = str_to_string(v);
        self.present = true;
    }

    /// Assigns `step`; the message becomes present.
    pub fn set_step(&mut self, v: u64)
        ensures
            final(self)@ == (PathSymView { present: true, step: v, ..old(self)@ }),
    {
        self.step = v;
        self.present = true;
    }

    /// Assigns `offset`; the message becomes present.
    pub fn set_offset(&mut self, v: u64)
        ensures
            final(self)@ == (PathSymView { present: true, offset: v, ..old(self)@ }),
    {
        self.offset = v;
        self.present = true;
    }

    /// Whether any scalar was assigned, a repeated field is non-empty, or a
    /// sub-message is set.
    pub fn is_set(&self) -> (r: bool)
        ensures
            r == self@.is_set(),
    {
        self.present
    }
}

impl Clone for PathSym {
    fn clone(&self) -> (r: Self)
        ensures
            r@ == self@,
    {
        PathSym {
            present: self.present,
            name: self.name.clone(),
            step: self.step,
            offset: self.offset,
        }
    }
}

/// A line as used for area borders (no priority on the wire).
pub struct LineDef {
    pub present: bool,
    pub width: u64,
    pub color: u32,
    pub join: u8,
    pub cap: u8,
    pub dashdot: DashDot,
    pub pathsym: PathSym,
}

/// The mathematical value of a [`LineDef`].
pub ghost struct LineDefView {
    pub present: bool,
    pub width: u64,
    pub color: u32,
    pub join: u8,
    pub cap: u8,
    pub dashdot: DashDotView,
    pub pathsym: PathSymView,
}

impl View for LineDef {
    type V = LineDefView;

    open spec fn view(&self) -> LineDefView {
        LineDefView {
            present: self.present,
            width: self.width,
            color: self.color,
            join: self.join,
            cap: self.cap,
            dashdot: self.dashdot@,
            pathsym: self.pathsym@,
        }
    }
}

impl LineDefView {
    /// Set once any scalar was assigned, a repeated field is non-empty, or a
    /// sub-message is set.
    pub open spec fn is_set(self) -> bool {
        self.present || self.dashdot.is_set() || self.pathsym.is_set()
    }

    /// The value of a fresh message.
    pub open spec fn empty() -> LineDefView {
        LineDefView {
            present: false,
            width: 0,
            color: 0,
            join: 0,
            cap: 0,
            dashdot: DashDotView::empty(),
            pathsym: PathSymView::empty(),
        }
    }
}

impl LineDef {
    /// A fresh message: nothing assigned, every repeated field empty.
    pub fn new() -> (r: LineDef)
        ensures
            r@ == LineDefView::empty(),
    {
        let r = LineDef {
            present: false,
            width: 0,
            color: 0,
            join: 0,
            cap: 0,
            dashdot: DashDot::new(),
            pathsym: PathSym::new(),
        };
        r
    }

    /// Assigns `width`; the message becomes present.
    pub fn set_width(&mut self, v: u64)
        ensures
            final(self)@ == (LineDefView { present: true, width: v, ..old(self)@ }),
    {
        self.width = v;
        self.present = true;
    }

    /// Assigns `color`; the message becomes present.
    pub fn set_color(&mut self, v: u32)
        ensures
            final(self)@ == (LineDefView { present: true, color: v, ..old(self)@ }),
    {
        self.color = v;
        self.present = true;
    }

    /// Assigns `join`; the message becomes present.
    pub fn set_join(&mut self, v: u8)
        ensures
            final(self)@ == (LineDefView { present: true, join: v, ..old(self)@ }),
    {
        self.join = v;
        self.present = true;
    }

    /// Assigns `cap`; the message becomes present.
    pub fn set_cap(&mut self, v: u8)
        ensures
            final(self)@ == (LineDefView { present: true, cap: v, ..old(self)@ }),
    {
        self.cap = v;
        self.present = true;
    }

    /// Whether any scalar was assigned, a repeated field is non-empty, or a
    /// sub-message is set.
    pub fn is_set(&self) -> (r: bool)
        ensures
            r == self@.is_set(),
    {
        self.present || self.dashdot.is_set() || self.pathsym.is_set()
    }
}

impl Clone for LineDef {
    fn clone(&self) -> (r: Self)
        ensures
            r@ == self@,
    {
        LineDef {
            present: self.present,
            width: self.width,
            color: self.color,
            join: self.join,
            cap: self.cap,
            dashdot: self.dashdot.clone(),
            pathsym: self.pathsym.clone(),
        }
    }
}

/// A line drawing rule.
pub struct LineRule {
    pub present: bool,
    pub width: u64,
    pub color: u32,
    pub priority: i32,
    pub join: u8,
    pub cap: u8,
    pub dashdot: DashDot,
    pub pathsym: PathSym,
}

/// The mathematical value of a [`LineRule`].
pub ghost struct LineRuleView {
    pub present: bool,
    pub width: u64,
    pub color: u32,
    pub priority: i32,
    pub join: u8,
    pub cap: u8,
    pub dashdot: DashDotView,
    pub pathsym: PathSymView,
}

impl View for LineRule {
    type V = LineRuleView;

    open spec fn view(&self) -> LineRuleView {
        LineRuleView {
            present: self.present,
            width: self.width,
            color: self.color,
            priority: self.priority,
            join: self.join,
            cap: self.cap,
            dashdot: self.dashdot@,
            pathsym: self.pathsym@,
        }
    }
}

impl LineRuleView {
    /// Set once any scalar was assigned, a repeated field is non-empty, or a
    /// sub-message is set.
    pub open spec fn is_set(self) -> bool {
        self.present || self.dashdot.is_set() || self.pathsym.is_set()
    }

    /// The value of a fresh message.
    pub open spec fn empty() -> LineRuleView {
        LineRuleView {
            present: false,
            width: 0,
            color: 0,
            priority: 0,
            join: 0,
            cap: 0,
            dashdot: DashDotView::empty(),
            pathsym: PathSymView::empty(),
        }
    }
}

impl LineRule {
    /// A fresh message: nothing assigned, every repeated field empty.
    pub fn new() -> (r: LineRule)
        ensures
            r@ == LineRuleView::empty(),
    {
        let r = LineRule {
            present: false,
            width: 0,
            color: 0,
            priority: 0,
            join: 0,
            cap: 0,
            dashdot: DashDot::new(),
            pathsym: PathSym::new(),
        };
        r
    }

    /// Assigns `width`; the message becomes present.
    pub fn set_width(&mut self, v: u64)
        ensures
            final(self)@ == (LineRuleView { present: true, width: v, ..old(self)@ }),
    {
        self.width = v;
        self.present = true;
    }

    /// Assigns `color`; the message becomes present.
    pub fn set_color(&mut self, v: u32)
        ensures
            final(self)@ == (LineRuleView { present: true, color: v, ..old(self)@ }),
    {
        self.color = v;
        self.present = true;
    }

    /// Assigns `priority`; the message becomes present.
    pub fn set_priority(&mut self, v: i32)
        ensures
            final(self)@ == (LineRuleView { present: true, priority: v, ..old(self)@ }),
    {
        self.priority = v;
        self.present = true;
    }

    /// Assigns `join`; the message becomes present.
    pub fn set_join(&mut self, v: u8)
        ensures
            final(self)@ == (LineRuleView { present: true, join: v, ..old(self)@ }),
    {
        self.join = v;
        self.present = true;
    }

    /// Assigns `cap`; the message becomes present.
    pub fn set_cap(&mut self, v: u8)
        ensures
            final(self)@ == (LineRuleView { present: true, cap: v, ..old(self)@ }),
    {
        self.cap = v;
        self.present = true;
    }

    /// Whether any scalar was assigned, a repeated field is non-empty, or a
    /// sub-message is set.
    pub fn is_set(&self) -> (r: bool)
        ensures
            r == self@.is_set(),
    {
        self.present || self.dashdot.is_set() || self.pathsym.is_set()
    }
}

impl Clone for LineRule {
    fn clone(&self) -> (r: Self)
        ensures
            r@ == self@,
    {
        LineRule {
            present: self.present,
            width: self.width,
            color: self.color,
            priority: self.priority,
            join: self.join,
            cap: self.cap,
            dashdot: self.dashdot.clone(),
            pathsym: self.pathsym.clone(),
        }
    }
}

/// An area fill rule.
pub struct AreaRule {
    pub present: bool,
    pub color: u32,
    pub priority: i32,
    pub border: LineDef,
}

/// The mathematical value of a [`AreaRule`].
pub ghost struct AreaRuleView {
    pub present: bool,
    pub color: u32,
    pub priority: i32,
    pub border: LineDefView,
}

impl View for AreaRule {
    type V = AreaRuleView;

    open spec fn view(&self) -> AreaRuleView {
        AreaRuleView {
            present: self.present,
            color: self.color,
            priority: self.priority,
            border: self.border@,
        }
    }
}

impl AreaRuleView {
    /// Set once any scalar was assigned, a repeated field is non-empty, or a
    /// sub-message is set.
    pub open spec fn is_set(self) -> bool {
        self.present || self.border.is_set()
    }

    /// The value of a fresh message.
    pub open spec fn empty() -> AreaRuleView {
        AreaRuleView {
            present: false,
            color: 0,
            priority: 0,
            border: LineDefView::empty(),
        }
    }
}

impl AreaRule {
    /// A fresh message: nothing assigned, every repeated field empty.
    pub fn new() -> (r: AreaRule)
        ensures
            r@ == AreaRuleView::empty(),
    {
        let r = AreaRule {
            present: false,
            color: 0,
            priority: 0,
            border: LineDef::new(),
        };
        r
    }

    /// Assigns `color`; the message becomes present.
    pub fn set_color(&mut self, v: u32)
        ensures
            final(self)@ == (AreaRuleView { present: true, color: v, ..old(self)@ }),
    {
        self.color = v;
        self.present = true;
    }

    /// Assigns `priority`; the message becomes present.
    pub fn set_priority(&mut self, v: i32)
        ensures
            final(self)@ == (AreaRuleView { present: true, priority: v, ..old(self)@ }),
    {
        self.priority = v;
        self.present = true;
    }

    /// Whether any scalar was assigned, a repeated field is non-empty, or a
    /// sub-message is set.
    pub fn is_set(&self) -> (r: bool)
        ensures
            r == self@.is_set(),
    {
        self.present || self.border.is_set()
    }
}

impl Clone for AreaRule {
    fn clone(&self) -> (r: Self)
        ensures
            r@ == self@,
    {
        AreaRule {
            present: self.present,
            color: self.color,
            priority: self.priority,
            border: self.border.clone(),
        }
    }
}

/// An icon rule.
pub struct SymbolRule {
    pub present: bool,
    pub name: String,
    pub apply_for_type: i32,
    pub priority: i32,
    pub min_distance: i32,
}

/// The mathematical value of a [`SymbolRule`].
pub ghost struct SymbolRuleView {
    pub present: bool,
    pub name: Seq<char>,
    pub apply_for_type: i32,
    pub priority: i32,
    pub min_distance: i32,
}

impl View for SymbolRule {
    type V = SymbolRuleView;

    open spec fn view(&self) -> SymbolRuleView {
        SymbolRuleView {
            present: self.present,
            name: self.name@,
            apply_for_type: self.apply_for_type,
            priority: self.priority,
            min_distance: self.min_distance,
        }
    }
}

impl SymbolRuleView {
    /// Set once any scalar was assigned, a repeated field is non-empty, or a
    /// sub-message is set.
    pub open spec fn is_set(self) -> bool {
        self.present
    }

    /// The value of a fresh message.
    pub open spec fn empty() -> SymbolRuleView {
        SymbolRuleView {
            present: false,
            name: Seq::empty(),
            apply_for_type: 0,
            priority: 0,
            min_distance: 0,
        }
    }
}

impl SymbolRule {
    /// A fresh message: nothing assigned, every repeated field empty.
    pub fn new() -> (r: SymbolRule)
        ensures
            r@ == SymbolRuleView::empty(),
    {
        let r = SymbolRule {
            present: false,
            name: String::new(),
            apply_for_type: 0,
            priority: 0,
            min_distance: 0,
        };
        r
    }

    /// Assigns `name`; the message becomes present.
    pub fn set_name(&mut self, v: &str)
        ensures
            final(self)@ == (SymbolRuleView { present: true, name: v@, ..old(self)@ }),
    {
        self.name = str_to_string(v);
        self.present = true;
    }

    /// Assigns `apply_for_type`; the message becomes present.
    pub fn set_apply_for_type(&mut self, v: i32)
        ensures
            final(self)@ == (SymbolRuleView { present: true, apply_for_type: v, ..old(self)@ }),
    {
        self.apply_for_type = v;
        self.present = true;
    }

    /// Assigns `priority`; the message becomes present.
    pub fn set_priority(&mut self, v: i32)
        ensures
            final(self)@ == (SymbolRuleView { present: true, priority: v, ..old(self)@ }),
    {
        self.priority = v;
        self.present = true;
    }

    /// Assigns `min_distance`; the message becomes present.
    pub fn set_min_distance(&mut self, v: i32)
        ensures
            final(self)@ == (SymbolRuleView { present: true, min_distance: v, ..old(self)@ }),
    {
        self.min_distance = v;
        self.present = true;
    }

    /// Whether any scalar was assigned, a repeated field is non-empty, or a
    /// sub-message is set.
    pub fn is_set(&self) -> (r: bool)
        ensures
            r == self@.is_set(),
    {
        self.present
    }
}

impl Clone for SymbolRule {
    fn clone(&self) -> (r: Self)
        ensures
            r@ == self@,
    {
        SymbolRule {
            present: self.present,
            name: self.name.clone(),
            apply_for_type: self.apply_for_type,
            priority: self.priority,
            min_distance: self.min_distance,
        }
    }
}

/// One caption line.
pub struct CaptionDef {
    pub present: bool,
    pub height: i32,
    pub color: u32,
    pub stroke_color: u32,
    pub offset_x: i32,
    pub offset_y: i32,
    pub text: String,
    pub is_optional: bool,
}

/// The mathematical value of a [`CaptionDef`].
pub ghost struct CaptionDefView {
    pub present: bool,
    pub height: i32,
    pub color: u32,
    pub stroke_color: u32,
    pub offset_x: i32,
    pub offset_y: i32,
    pub text: Seq<char>,
    pub is_optional: bool,
}

impl View for CaptionDef {
    type V = CaptionDefView;

    open spec fn view(&self) -> CaptionDefView {
        CaptionDefView {
            present: self.present,
            height: self.height,
            color: self.color,
            stroke_color: self.stroke_color,
            offset_x: self.offset_x,
            offset_y: self.offset_y,
            text: self.text@,
            is_optional: self.is_optional,
        }
    }
}

impl CaptionDefView {
    /// Set once any scalar was assigned, a repeated field is non-empty, or a
    /// sub-message is set.
    pub open spec fn is_set(self) -> bool {
        self.present
    }

    /// The value of a fresh message.
    pub open spec fn empty() -> CaptionDefView {
        CaptionDefView {
            present: false,
            height: 0,
            color: 0,
            stroke_color: 0,
            offset_x: 0,
            offset_y: 0,
            text: Seq::empty(),
            is_optional: false,
        }
    }
}

impl CaptionDef {
    /// A fresh message: nothing assigned, every repeated field empty.
    pub fn new() -> (r: CaptionDef)
        ensures
            r@ == CaptionDefView::empty(),
    {
        let r = CaptionDef {
            present: false,
            height: 0,
            color: 0,
            stroke_color: 0,
            offset_x: 0,
            offset_y: 0,
            text: String::new(),
            is_optional: false,
        };
        r
    }

    /// Assigns `height`; the message becomes present.
    pub fn set_height(&mut self, v: i32)
        ensures
            final(self)@ == (CaptionDefView { present: true, height: v, ..old(self)@ }),
    {
        self.height = v;
        self.present = true;
    }

    /// Assigns `color`; the message becomes present.
    pub fn set_color(&mut self, v: u32)
        ensures
            final(self)@ == (CaptionDefView { present: true, color: v, ..old(self)@ }),
    {
        self.color = v;
        self.present = true;
    }

    /// Assigns `stroke_color`; the message becomes present.
    pub fn set_stroke_color(&mut self, v: u32)
        ensures
            final(self)@ == (CaptionDefView { present: true, stroke_color: v, ..old(self)@ }),
    {
        self.stroke_color = v;
        self.present = true;
    }

    /// Assigns `offset_x`; the message becomes present.
    pub fn set_offset_x(&mut self, v: i32)
        ensures
            final(self)@ == (CaptionDefView { present: true, offset_x: v, ..old(self)@ }),
    {
        self.offset_x = v;
        self.present = true;
    }

    /// Assigns `offset_y`; the message becomes present.
    pub fn set_offset_y(&mut self, v: i32)
        ensures
            final(self)@ == (CaptionDefView { present: true, offset_y: v, ..old(self)@ }),
    {
        self.offset_y = v;
        self.present = true;
    }

    /// Assigns `text`; the message becomes present.
    pub fn set_text(&mut self, v: &str)
        ensures
            final(self)@ == (CaptionDefView { present: true, text: v@, ..old(self)@ }),
    {
        self.text = str_to_string(v);
        self.present = true;
    }

    /// Assigns `is_optional`; the message becomes present.
    pub fn set_is_optional(&mut self, v: bool)
        ensures
            final(self)@ == (CaptionDefView { present: true, is_optional: v, ..old(self)@ }),
    {
        self.is_optional = v;
        self.present = true;
    }

    /// Whether any scalar was assigned, a repeated field is non-empty, or a
    /// sub-message is set.
    pub fn is_set(&self) -> (r: bool)
        ensures
            r == self@.is_set(),
    {
        self.present
    }
}

impl Clone for CaptionDef {
    fn clone(&self) -> (r: Self)
        ensures
            r@ == self@,
    {
        CaptionDef {
            present: self.present,
            height: self.height,
            color: self.color,
            stroke_color: self.stroke_color,
            offset_x: self.offset_x,
            offset_y: self.offset_y,
            text: self.text.clone(),
            is_optional: self.is_optional,
        }
    }
}

/// A caption (or path text) rule.
pub struct CaptionRule {
    pub present: bool,
    pub priority: i32,
    pub primary: CaptionDef,
    pub secondary: CaptionDef,
}

/// The mathematical value of a [`CaptionRule`].
pub ghost struct CaptionRuleView {
    pub present: bool,
    pub priority: i32,
    pub primary: CaptionDefView,
    pub secondary: CaptionDefView,
}

impl View for CaptionRule {
    type V = CaptionRuleView;

    open spec fn view(&self) -> CaptionRuleView {
        CaptionRuleView {
            present: self.present,
            priority: self.priority,
            primary: self.primary@,
            secondary: self.secondary@,
        }
    }
}

impl CaptionRuleView {
    /// Set once any scalar was assigned, a repeated field is non-empty, or a
    /// sub-message is set.
    pub open spec fn is_set(self) -> bool {
        self.present || self.primary.is_set() || self.secondary.is_set()
    }

    /// The value of a fresh message.
    pub open spec fn empty() -> CaptionRuleView {
        CaptionRuleView {
            present: false,
            priority: 0,
            primary: CaptionDefView::empty(),
            secondary: CaptionDefView::empty(),
        }
    }
}

impl CaptionRule {
    /// A fresh message: nothing assigned, every repeated field empty.
    pub fn new() -> (r: CaptionRule)
        ensures
            r@ == CaptionRuleView::empty(),
    {
        let r = CaptionRule {
            present: false,
            priority: 0,
            primary: CaptionDef::new(),
            secondary: CaptionDef::new(),
        };
        r
    }

    /// Assigns `priority`; the message becomes present.
    pub fn set_priority(&mut self, v: i32)
        ensures
            final(self)@ == (CaptionRuleView { present: true, priority: v, ..old(self)@ }),
    {
        self.priority = v;
        self.present = true;
    }

    /// Whether any scalar was assigned, a repeated field is non-empty, or a
    /// sub-message is set.
    pub fn is_set(&self) -> (r: bool)
        ensures
            r == self@.is_set(),
    {
        self.present || self.primary.is_set() || self.secondary.is_set()
    }
}

impl Clone for CaptionRule {
    fn clone(&self) -> (r: Self)
        ensures
            r@ == self@,
    {
        CaptionRule {
            present: self.present,
            priority: self.priority,
            primary: self.primary.clone(),
            secondary: self.secondary.clone(),
        }
    }
}

/// A road shield rule.
pub struct ShieldRule {
    pub present: bool,
    pub height: i32,
    pub color: u32,
    pub stroke_color: u32,
    pub priority: i32,
    pub min_distance: i32,
    pub text_color: u32,
    pub text_stroke_color: u32,
}

/// The mathematical value of a [`ShieldRule`].
pub ghost struct ShieldRuleView {
    pub present: bool,
    pub height: i32,
    pub color: u32,
    pub stroke_color: u32,
    pub priority: i32,
    pub min_distance: i32,
    pub text_color: u32,
    pub text_stroke_color: u32,
}

impl View for ShieldRule {
    type V = ShieldRuleView;

    open spec fn view(&self) -> ShieldRuleView {
        ShieldRuleView {
            present: self.present,
            height: self.height,
            color: self.color,
            stroke_color: self.stroke_color,
            priority: self.priority,
            min_distance: self.min_distance,
            text_color: self.text_color,
            text_stroke_color: self.text_stroke_color,
        }
    }
}

impl ShieldRuleView {
    /// Set once any scalar was assigned, a repeated field is non-empty, or a
    /// sub-message is set.
    pub open spec fn is_set(self) -> bool {
        self.present
    }

    /// The value of a fresh message.
    pub open spec fn empty() -> ShieldRuleView {
        ShieldRuleView {
            present: false,
            height: 0,
            color: 0,
            stroke_color: 0,
            priority: 0,
            min_distance: 0,
            text_color: 0,
            text_stroke_color: 0,
        }
    }
}

impl ShieldRule {
    /// A fresh message: nothing assigned, every repeated field empty.
    pub fn new() -> (r: ShieldRule)
        ensures
            r@ == ShieldRuleView::empty(),
    {
        let r = ShieldRule {
            present: false,
            height: 0,
            color: 0,
            stroke_color: 0,
            priority: 0,
            min_distance: 0,
            text_color: 0,
            text_stroke_color: 0,
        };
        r
    }

    /// Assigns `height`; the message becomes present.
    pub fn set_height(&mut self, v: i32)
        ensures
            final(self)@ == (ShieldRuleView { present: true, height: v, ..old(self)@ }),
    {
        self.height = v;
        self.present = true;
    }

    /// Assigns `color`; the message becomes present.
    pub fn set_color(&mut self, v: u32)
        ensures
            final(self)@ == (ShieldRuleView { present: true, color: v, ..old(self)@ }),
    {
        self.color = v;
        self.present = true;
    }

    /// Assigns `stroke_color`; the message becomes present.
    pub fn set_stroke_color(&mut self, v: u32)
        ensures
            final(self)@ == (ShieldRuleView { present: true, stroke_color: v, ..old(self)@ }),
    {
        self.stroke_color = v;
        self.present = true;
    }

    /// Assigns `priority`; the message becomes present.
    pub fn set_priority(&mut self, v: i32)
        ensures
            final(self)@ == (ShieldRuleView { present: true, priority: v, ..old(self)@ }),
    {
        self.priority = v;
        self.present = true;
    }

    /// Assigns `min_distance`; the message becomes present.
    pub fn set_min_distance(&mut self, v: i32)
        ensures
            final(self)@ == (ShieldRuleView { present: true, min_distance: v, ..old(self)@ }),
    {
        self.min_distance = v;
        self.present = true;
    }

    /// Assigns `text_color`; the message becomes present.
    pub fn set_text_color(&mut self, v: u32)
        ensures
            final(self)@ == (ShieldRuleView { present: true, text_color: v, ..old(self)@ }),
    {
        self.text_color = v;
        self.present = true;
    }

    /// Assigns `text_stroke_color`; the message becomes present.
    pub fn set_text_stroke_color(&mut self, v: u32)
        ensures
            final(self)@ == (ShieldRuleView { present: true, text_stroke_color: v, ..old(self)@ }),
    {
        self.text_stroke_color = v;
        self.present = true;
    }

    /// Whether any scalar was assigned, a repeated field is non-empty, or a
    /// sub-message is set.
    pub fn is_set(&self) -> (r: bool)
        ensures
            r == self@.is_set(),
    {
        self.present
    }
}

impl Clone for ShieldRule {
    fn clone(&self) -> (r: Self)
        ensures
            r@ == self@,
    {
        ShieldRule {
            present: self.present,
            height: self.height,
            color: self.color,
            stroke_color: self.stroke_color,
            priority: self.priority,
            min_distance: self.min_distance,
            text_color: self.text_color,
            text_stroke_color: self.text_stroke_color,
        }
    }
}

/// The drawing rules of one type at one zoom level.
pub struct DrawElement {
    pub present: bool,
    pub scale: u8,
    pub apply_if: Vec<String>,
    pub area: AreaRule,
    pub symbol: SymbolRule,
    pub caption: CaptionRule,
    pub path_text: CaptionRule,
    pub shield: ShieldRule,
    pub lines: Vec<LineRule>,
}

/// The mathematical value of a [`DrawElement`].
pub ghost struct DrawElementView {
    pub present: bool,
    pub scale: u8,
    pub apply_if: Seq<Seq<char>>,
    pub area: AreaRuleView,
    pub symbol: SymbolRuleView,
    pub caption: CaptionRuleView,
    pub path_text: CaptionRuleView,
    pub shield: ShieldRuleView,
    pub lines: Seq<LineRuleView>,
}

impl View for DrawElement {
    type V = DrawElementView;

    open spec fn view(&self) -> DrawElementView {
        DrawElementView {
            present: self.present,
            scale: self.scale,
            apply_if: self.apply_if@.map_values(|s: String| s@),
            area: self.area@,
            symbol: self.symbol@,
            caption: self.caption@,
            path_text: self.path_text@,
            shield: self.shield@,
            lines: self.lines@.map_values(|m: LineRule| m@),
        }
    }
}

impl DrawElementView {
    /// Set once any scalar was assigned, a repeated field is non-empty, or a
    /// sub-message is set.
    pub open spec fn is_set(self) -> bool {
        self.present || self.apply_if.len() > 0 || self.area.is_set() || self.symbol.is_set() || self.caption.is_set() || self.path_text.is_set() || self.shield.is_set() || self.lines.len() > 0
    }

    /// The value of a fresh message.
    pub open spec fn empty() -> DrawElementView {
        DrawElementView {
            present: false,
            scale: 0,
            apply_if: Seq::empty(),
            area: AreaRuleView::empty(),
            symbol: SymbolRuleView::empty(),
            caption: CaptionRuleView::empty(),
            path_text: CaptionRuleView::empty(),
            shield: ShieldRuleView::empty(),
            lines: Seq::empty(),
        }
    }
}

impl DrawElement {
    /// A fresh message: nothing assigned, every repeated field empty.
    pub fn new() -> (r: DrawElement)
        ensures
            r@ == DrawElementView::empty(),
    {
        let r = DrawElement {
            present: false,
            scale: 0,
            apply_if: Vec::new(),
            area: AreaRule::new(),
            symbol: SymbolRule::new(),
            caption: CaptionRule::new(),
            path_text: CaptionRule::new(),
            shield: ShieldRule::new(),
            lines: Vec::new(),
        };
        assert(r.apply_if@.map_values(|s: String| s@) =~= Seq::empty());
        assert(r.lines@.map_values(|m: LineRule| m@) =~= Seq::empty());
        r
    }

    /// Assigns `scale`; the message becomes present.
    pub fn set_scale(&mut self, v: u8)
        ensures
            final(self)@ == (DrawElementView { present: true, scale: v, ..old(self)@ }),
    {
        self.scale = v;
        self.present = true;
    }

    /// Whether any scalar was assigned, a repeated field is non-empty, or a
    /// sub-message is set.
    pub fn is_set(&self) -> (r: bool)
        ensures
            r == self@.is_set(),
    {
        self.present || !self.apply_if.is_empty() || self.area.is_set() || self.symbol.is_set() || self.caption.is_set() || self.path_text.is_set() || self.shield.is_set() || !self.lines.is_empty()
    }
}

impl Clone for DrawElement {
    fn clone(&self) -> (r: Self)
        ensures
            r@ == self@,
    {
        let apply_if = crate::text::clone_strings(&self.apply_if);
        let lines = clone_lines_linerule(&self.lines);
        DrawElement {
            present: self.present,
            scale: self.scale,
            apply_if,
            area: self.area.clone(),
            symbol: self.symbol.clone(),
            caption: self.caption.clone(),
            path_text: self.path_text.clone(),
            shield: self.shield.clone(),
            lines,
        }
    }
}

pub fn clone_lines_linerule(v: &Vec<LineRule>) -> (r: Vec<LineRule>)
    ensures
        r@.map_values(|m: LineRule| m@) == v@.map_values(|m: LineRule| m@),
{
    let mut r: Vec<LineRule> = Vec::new();
    for i in 0..v.len()
        invariant
            r@.len() == i,
            forall|j: int| 0 <= j < i ==> #[trigger] r@[j]@ == v@[j]@,
    {
        r.push(v[i].clone());
    }
    assert(r@.map_values(|m: LineRule| m@) =~= v@.map_values(|m: LineRule| m@));
    r
}

/// The drawing rules of one classificator type.
pub struct ClassifElement {
    pub present: bool,
    pub name: String,
    pub element: Vec<DrawElement>,
}

/// The mathematical value of a [`ClassifElement`].
pub ghost struct ClassifElementView {
    pub present: bool,
    pub name: Seq<char>,
    pub element: Seq<DrawElementView>,
}

impl View for ClassifElement {
    type V = ClassifElementView;

    open spec fn view(&self) -> ClassifElementView {
        ClassifElementView {
            present: self.present,
            name: self.name@,
            element: self.element@.map_values(|m: DrawElement| m@),
        }
    }
}

impl ClassifElementView {
    /// Set once any scalar was assigned, a repeated field is non-empty, or a
    /// sub-message is set.
    pub open spec fn is_set(self) -> bool {
        self.present || self.element.len() > 0
    }

    /// The value of a fresh message.
    pub open spec fn empty() -> ClassifElementView {
        ClassifElementView {
            present: false,
            name: Seq::empty(),
            element: Seq::empty(),
        }
    }
}

impl ClassifElement {
    /// A fresh message: nothing assigned, every repeated field empty.
    pub fn new() -> (r: ClassifElement)
        ensures
            r@ == ClassifElementView::empty(),
    {
        let r = ClassifElement {
            present: false,
            name: String::new(),
            element: Vec::new(),
        };
        assert(r.element@.map_values(|m: DrawElement| m@) =~= Seq::empty());
        r
    }

    /// Assigns `name`; the message becomes present.
    pub fn set_name(&mut self, v: &str)
        ensures
            final(self)@ == (ClassifElementView { present: true, name: v@, ..old(self)@ }),
    {
        self.name = str_to_string(v);
        self.present = true;
    }

    /// Whether any scalar was assigned, a repeated field is non-empty, or a
    /// sub-message is set.
    pub fn is_set(&self) -> (r: bool)
        ensures
            r == self@.is_set(),
    {
        self.present || !self.element.is_empty()
    }
}

impl Clone for ClassifElement {
    fn clone(&self) -> (r: Self)
        ensures
            r@ == self@,
    {
        let element = clone_element_drawelement(&self.element);
        ClassifElement {
            present: self.present,
            name: self.name.clone(),
            element,
        }
    }
}

pub fn clone_element_drawelement(v: &Vec<DrawElement>) -> (r: Vec<DrawElement>)
    ensures
        r@.map_values(|m: DrawElement| m@) == v@.map_values(|m: DrawElement| m@),
{
    let mut r: Vec<DrawElement> = Vec::new();
    for i in 0..v.len()
        invariant
            r@.len() == i,
            forall|j: int| 0 <= j < i ==> #[trigger] r@[j]@ == v@[j]@,
    {
        r.push(v[i].clone());
    }
    assert(r@.map_values(|m: DrawElement| m@) =~= v@.map_values(|m: DrawElement| m@));
    r
}

/// A named color.
pub struct ColorElement {
    pub present: bool,
    pub name: String,
    pub color: u32,
}

/// The mathematical value of a [`ColorElement`].
pub ghost struct ColorElementView {
    pub present: bool,
    pub name: Seq<char>,
    pub color: u32,
}

impl View for ColorElement {
    type V = ColorElementView;

    open spec fn view(&self) -> ColorElementView {
        ColorElementView {
            present: self.present,
            name: self.name@,
            color: self.color,
        }
    }
}

impl ColorElementView {
    /// Set once any scalar was assigned, a repeated field is non-empty, or a
    /// sub-message is set.
    pub open spec fn is_set(self) -> bool {
        self.present
    }

    /// The value of a fresh message.
    pub open spec fn empty() -> ColorElementView {
        ColorElementView {
            present: false,
            name: Seq::empty(),
            color: 0,
        }
    }
}

impl ColorElement {
    /// A fresh message: nothing assigned, every repeated field empty.
    pub fn new() -> (r: ColorElement)
        ensures
            r@ == ColorElementView::empty(),
    {
        let r = ColorElement {
            present: false,
            name: String::new(),
            color: 0,
        };
        r
    }

    /// Assigns `name`; the message becomes present.
    pub fn set_name(&mut self, v: &str)
        ensures
            final(self)@ == (ColorElementView { present: true, name: v@, ..old(self)@ }),
    {
        self.name = str_to_string(v);
        self.present = true;
    }

    /// Assigns `color`; the message becomes present.
    pub fn set_color(&mut self, v: u32)
        ensures
            final(self)@ == (ColorElementView { present: true, color: v, ..old(self)@ }),
    {
        self.color = v;
        self.present = true;
    }

    /// Whether any scalar was assigned, a repeated field is non-empty, or a
    /// sub-message is set.
    pub fn is_set(&self) -> (r: bool)
        ensures
            r == self@.is_set(),
    {
        self.present
    }
}

impl Clone for ColorElement {
    fn clone(&self) -> (r: Self)
        ensures
            r@ == self@,
    {
        ColorElement {
            present: self.present,
            name: self.name.clone(),
            color: self.color,
        }
    }
}

/// The named colors block.
pub struct ColorsElement {
    pub present: bool,
    pub value: Vec<ColorElement>,
}

/// The mathematical value of a [`ColorsElement`].
pub ghost struct ColorsElementView {
    pub present: bool,
    pub value: Seq<ColorElementView>,
}

impl View for ColorsElement {
    type V = ColorsElementView;

    open spec fn view(&self) -> ColorsElementView {
        ColorsElementView {
            present: self.present,
            value: self.value@.map_values(|m: ColorElement| m@),
        }
    }
}

impl ColorsElementView {
    /// Set once any scalar was assigned, a repeated field is non-empty, or a
    /// sub-message is set.
    pub open spec fn is_set(self) -> bool {
        self.present || self.value.len() > 0
    }

    /// The value of a fresh message.
    pub open spec fn empty() -> ColorsElementView {
        ColorsElementView {
            present: false,
            value: Seq::empty(),
        }
    }
}

impl ColorsElement {
    /// A fresh message: nothing assigned, every repeated field empty.
    pub fn new() -> (r: ColorsElement)
        ensures
            r@ == ColorsElementView::empty(),
    {
        let r = ColorsElement {
            present: false,
            value: Vec::new(),
        };
        assert(r.value@.map_values(|m: ColorElement| m@) =~= Seq::empty());
        r
    }

    /// Whether any scalar was assigned, a repeated field is non-empty, or a
    /// sub-message is set.
    pub fn is_set(&self) -> (r: bool)
        ensures
            r == self@.is_set(),
    {
        self.present || !self.value.is_empty()
    }
}

impl Clone for ColorsElement {
    fn clone(&self) -> (r: Self)
        ensures
            r@ == self@,
    {
        let value = clone_value_colorelement(&self.value);
        ColorsElement {
            present: self.present,
            value,
        }
    }
}

pub fn clone_value_colorelement(v: &Vec<ColorElement>) -> (r: Vec<ColorElement>)
    ensures
        r@.map_values(|m: ColorElement| m@) == v@.map_values(|m: ColorElement| m@),
{
    let mut r: Vec<ColorElement> = Vec::new();
    for i in 0..v.len()
        invariant
            r@.len() == i,
            forall|j: int| 0 <= j < i ==> #[trigger] r@[j]@ == v@[j]@,
    {
        r.push(v[i].clone());
    }
    assert(r@.map_values(|m: ColorElement| m@) =~= v@.map_values(|m: ColorElement| m@));
    r
}

/// A whole drawing-rules file for one variant.
pub struct Container {
    pub present: bool,
    pub colors: ColorsElement,
    pub cont: Vec<ClassifElement>,
}

/// The mathematical value of a [`Container`].
pub ghost struct ContainerView {
    pub present: bool,
    pub colors: ColorsElementView,
    pub cont: Seq<ClassifElementView>,
}

impl View for Container {
    type V = ContainerView;

    open spec fn view(&self) -> ContainerView {
        ContainerView {
            present: self.present,
            colors: self.colors@,
            cont: self.cont@.map_values(|m: ClassifElement| m@),
        }
    }
}

impl ContainerView {
    /// Set once any scalar was assigned, a repeated field is non-empty, or a
    /// sub-message is set.
    pub open spec fn is_set(self) -> bool {
        self.present || self.colors.is_set() || self.cont.len() > 0
    }

    /// The value of a fresh message.
    pub open spec fn empty() -> ContainerView {
        ContainerView {
            present: false,
            colors: ColorsElementView::empty(),
            cont: Seq::empty(),
        }
    }
}

impl Container {
    /// A fresh message: nothing assigned, every repeated field empty.
    pub fn new() -> (r: Container)
        ensures
            r@ == ContainerView::empty(),
    {
        let r = Container {
            present: false,
            colors: ColorsElement::new(),
            cont: Vec::new(),
        };
        assert(r.cont@.map_values(|m: ClassifElement| m@) =~= Seq::empty());
        r
    }

    /// Whether any scalar was assigned, a repeated field is non-empty, or a
    /// sub-message is set.
    pub fn is_set(&self) -> (r: bool)
        ensures
            r == self@.is_set(),
    {
        self.present || self.colors.is_set() || !self.cont.is_empty()
    }
}

impl Clone for Container {
    fn clone(&self) -> (r: Self)
        ensures
            r@ == self@,
    {
        let cont = clone_cont_classifelement(&self.cont);
        Container {
            present: self.present,
            colors: self.colors.clone(),
            cont,
        }
    }
}

pub fn clone_cont_classifelement(v: &Vec<ClassifElement>) -> (r: Vec<ClassifElement>)
    ensures
        r@.map_values(|m: ClassifElement| m@) == v@.map_values(|m: ClassifElement| m@),
{
    let mut r: Vec<ClassifElement> = Vec::new();
    for i in 0..v.len()
        invariant
            r@.len() == i,
            forall|j: int| 0 <= j < i ==> #[trigger] r@[j]@ == v@[j]@,
    {
        r.push(v[i].clone());
    }
    assert(r@.map_values(|m: ClassifElement| m@) =~= v@.map_values(|m: ClassifElement| m@));
    r
}

} // verus!
