//! Node kinds, their payloads, and the kind-compatibility grammar.
//!
//! A scenario document is a tree of nodes: groups contain scenes, scenes
//! contain pages (or page-sized mats), pages contain mats and overlay
//! images.  Two static predicates decide whether one kind may become a
//! child, or a sibling, of another; they are the single source of truth
//! for what the structural primitives may do.

use vstd::prelude::*;

verus! {

/// How a node is reached from the node that owns it: through the owner's
/// `child` link or through the owner's `neighbor` (next-sibling) link.
#[derive(Debug, Clone, Copy, PartialEq, Eq, Structural)]
pub enum BranchType {
    Child,
    Neighbor,
}

/// Which outgoing links a node had when it was flattened for persistence.
#[derive(Debug, Clone, Copy, PartialEq, Eq, Structural)]
pub enum HasBranches {
    Both,
    Neighbor,
    Child,
    Leaf,
}

/// Whether a node defines a named label, references one, or neither.
#[derive(Debug, Clone, Copy, PartialEq, Eq, Structural)]
pub enum LabelType {
    NoLabel,
    Def,
    Ref,
    RefNoRect,
}

impl LabelType {
    /// Human-readable name of the label slot, as shown by attribute editors.
    pub fn pretty_format(&self) -> (r: &'static str)
        ensures
            r@ == self.pretty_format_spec(),
    {
        match self {
            LabelType::NoLabel => "None",
            LabelType::Def => "Def",
            LabelType::Ref => "Ref",
            LabelType::RefNoRect => "RefNoRect",
        }
    }

    pub open spec fn pretty_format_spec(self) -> Seq<char> {
        match self {
            LabelType::NoLabel => "None"@,
            LabelType::Def => "Def"@,
            LabelType::Ref => "Ref"@,
            LabelType::RefNoRect => "RefNoRect"@,
        }
    }

    /// Inverse of `pretty_format`; unknown names fall back to the empty slot.
    pub fn from(s: &str) -> (r: Self)
        ensures
            r == Self::from_spec(s@),
    {
        if str_eq(s, "Def") {
            LabelType::Def
        } else if str_eq(s, "Ref") {
            LabelType::Ref
        } else if str_eq(s, "RefNoRect") {
            LabelType::RefNoRect
        } else {
            LabelType::NoLabel
        }
    }

    pub open spec fn from_spec(s: Seq<char>) -> LabelType {
        if s == "Def"@ {
            LabelType::Def
        } else if s == "Ref"@ {
            LabelType::Ref
        } else if s == "RefNoRect"@ {
            LabelType::RefNoRect
        } else {
            LabelType::NoLabel
        }
    }
}

/// The text with every line break removed.
pub open spec fn strip_newlines(s: Seq<char>) -> Seq<char>
    decreases s.len(),
{
    if s.len() == 0 {
        Seq::empty()
    } else if s[0] == '\n' {
        strip_newlines(s.skip(1))
    } else {
        seq![s[0]] + strip_newlines(s.skip(1))
    }
}

/// Remove every line break from a string slice.
pub fn strip_newlines_x(s: &str) -> (r: String)
    ensures
        r@ == strip_newlines(s@),
{
    let n = s.unicode_len();
    let mut out = String::new();
    let mut i: usize = 0;
    proof {
        assert(s@.skip(0) =~= s@);
        assert(Seq::<char>::empty() + strip_newlines(s@) =~= strip_newlines(s@));
    }
    while i < n
        invariant
            n == s@.len(),
            i <= n,
            out@ + strip_newlines(s@.skip(i as int)) == strip_newlines(s@),
        decreases n - i,
    {
        proof {
            assert(s@.skip(i as int).skip(1) =~= s@.skip(i as int + 1));
            assert(s@.skip(i as int)[0] == s@[i as int]);
        }
        if s.get_char(i) != '\n' {
            let piece = s.substring_char(i, i + 1);
            out.append(piece);
            proof {
                assert(s@.subrange(i as int, i as int + 1) =~= seq![s@[i as int]]);
                assert(out@ + strip_newlines(s@.skip(i as int + 1)) =~= strip_newlines(s@));
            }
        }
        i = i + 1;
    }
    proof {
        assert(s@.skip(n as int) =~= Seq::<char>::empty());
        assert(strip_newlines(s@.skip(n as int)) =~= Seq::<char>::empty());
        assert(out@ =~= strip_newlines(s@));
    }
    out
}

/// Character-wise equality of two string slices.
pub fn str_eq(a: &str, b: &str) -> (r: bool)
    ensures
        r == (a@ == b@),
{
    let a_len = a.unicode_len();
    let b_len = b.unicode_len();
    if a_len != b_len {
        assert(a@.len() != b@.len());
        return false;
    }
    let mut i: usize = 0;
    while i < a_len
        invariant
            a_len == a@.len(),
            b_len == b@.len(),
            a_len == b_len,
            i <= a_len,
            forall|j: int| 0 <= j < i ==> a@[j] == b@[j],
        decreases a_len - i,
    {
        if a.get_char(i) != b.get_char(i) {
            return false;
        }
        i = i + 1;
    }
    proof {
        assert(a@ =~= b@);
    }
    true
}

/// An RGB color channel triple.
#[derive(Debug, Clone, Copy, PartialEq, Eq, Structural)]
pub struct Color {
    pub r: u32,
    pub g: u32,
    pub b: u32,
}

impl Default for Color {
    fn default() -> (r: Self)
        ensures
            r == (Color { r: 128u32, g: 128u32, b: 128u32 }),
    {
        Color { r: 128, g: 128, b: 128 }
    }
}

/// A point in canvas coordinates.
#[derive(Debug, Clone, Copy, PartialEq, Eq, Structural)]
pub struct Position {
    pub x: i32,
    pub y: i32,
}

impl Default for Position {
    fn default() -> (r: Self)
        ensures
            r == (Position { x: 0i32, y: 0i32 }),
    {
        Position { x: 0, y: 0 }
    }
}

impl Position {
    pub fn from_xy(x: i32, y: i32) -> (r: Self)
        ensures
            r == (Position { x, y }),
    {
        Position { x, y }
    }
}

/// A width/height pair in canvas coordinates.
#[derive(Debug, Clone, Copy, PartialEq, Eq, Structural)]
pub struct Dimension {
    pub w: i32,
    pub h: i32,
}

impl Default for Dimension {
    fn default() -> (r: Self)
        ensures
            r == (Dimension { w: 100i32, h: 100i32 }),
    {
        Dimension { w: 100, h: 100 }
    }
}

/// A crop rectangle: origin and size.
#[derive(Debug, Clone, Copy, PartialEq, Eq, Structural)]
pub struct CropInfo {
    pub pos: Position,
    pub dim: Dimension,
}

/// A page: a click-sized unit inside a scene.
#[derive(Debug, Clone)]
pub struct Page {
    pub name: String,
}

/// A scene: a run of pages sharing one background.
#[derive(Debug, Clone)]
pub struct Scene {
    pub bgimg: Option<String>,
    pub bg_en: bool,
    pub bgcol: Color,
    pub crop: CropInfo,
    pub crop_en: bool,
    pub lbl: Option<String>,
    pub lbl_type: LabelType,
}

/// A text mat: a colored rectangle carrying styled text.
#[derive(Debug, Clone)]
pub struct Mat {
    pub col: Color,
    pub pos: Position,
    pub dim: Dimension,
    pub r: i32,
    pub a: u32,
    pub src: Option<String>,
    pub lbl: Option<String>,
    pub lbl_type: LabelType,
    pub name: String,
    pub font_col: Color,
    pub font_a: u32,
    pub font_weight: String,
    pub font_col_2: Color,
    pub font_a_2: u32,
    pub font_weight_2: String,
    pub font_size: i32,
    pub font_family: String,
    pub vertical: bool,
    pub text: String,
    pub bgimg: Option<String>,
    pub bg_en: bool,
    pub text_pos: Position,
}

/// An overlay image placed on a page.
#[derive(Debug, Clone)]
pub struct Ovimg {
    pub path: String,
    pub pos: Position,
}

/// The tagged value carried by a scenario node.
#[derive(Debug, Clone)]
pub enum Item {
    Group,
    Scene(Scene),
    Page(Page),
    Mat(Mat),
    Ovimg(Ovimg),
    Pmat(Mat),
}

/// One node of the scenario tree, in the first-child/next-sibling
/// encoding: `child` owns the first member of this node's child level,
/// `neighbor` owns the next node of this node's own level.  `bt` records
/// how the node is reached from its owner; a root's `bt` is `Child`.
#[derive(Debug)]
pub struct ScenarioNode {
    pub value: Item,
    pub bt: BranchType,
    pub id: i32,
    pub child: Option<Box<ScenarioNode>>,
    pub neighbor: Option<Box<ScenarioNode>>,
}

impl Default for ScenarioNode {
    fn default() -> (r: Self)
        ensures
            r.value matches Item::Page(p) && p.name@ == "new_page"@,
            r.bt == BranchType::Child,
            r.id == 0,
            r.child is None,
            r.neighbor is None,
    {
        ScenarioNode {
            value: Item::Page(Page { name: "new_page".to_owned() }),
            bt: BranchType::Child,
            id: 0,
            child: None,
            neighbor: None,
        }
    }
}

impl ScenarioNode {
    pub fn new() -> (r: ScenarioNode)
        ensures
            r.value matches Item::Page(p) && p.name@ == "new_page"@,
            r.bt == BranchType::Child,
            r.id == 0,
            r.child is None,
            r.neighbor is None,
    {
        ScenarioNode {
            value: Item::Page(Page { name: "new_page".to_owned() }),
            bt: BranchType::Child,
            id: 0,
            child: None,
            neighbor: None,
        }
    }

    /// May a node holding `c` be a child of one holding `p`?
    /// Groups nest groups and scenes; scenes nest pages and (page-sized)
    /// mats; pages nest mats and overlay images; nothing else nests.
    pub open spec fn can_be_child_spec(p: Item, c: Item) -> bool {
        match p {
            Item::Group => match c {
                Item::Group => true,
                Item::Scene(_) => true,
                _ => false,
            },
            Item::Scene(_) => match c {
                Item::Page(_) => true,
                Item::Pmat(_) => true,
                Item::Mat(_) => true,
                _ => false,
            },
            Item::Page(_) => match c {
                Item::Mat(_) => true,
                Item::Ovimg(_) => true,
                _ => false,
            },
            _ => false,
        }
    }

    pub fn can_be_child(p: &Item, c: &Item) -> (r: bool)
        ensures
            r == Self::can_be_child_spec(*p, *c),
    {
        match p {
            Item::Group => match c {
                Item::Group => true,
                Item::Scene(_) => true,
                _ => false,
            },
            Item::Scene(_) => match c {
                Item::Page(_) => true,
                Item::Pmat(_) => true,
                Item::Mat(_) => true,
                _ => false,
            },
            Item::Page(_) => match c {
                Item::Mat(_) => true,
                Item::Ovimg(_) => true,
                _ => false,
            },
            _ => false,
        }
    }

    /// May a node holding `n` be the next sibling of one holding `p`?
    /// Siblings chain within the same structural family.
    pub open spec fn can_be_neighbor_spec(p: Item, n: Item) -> bool {
        match p {
            Item::Group => match n {
                Item::Group => true,
                Item::Scene(_) => true,
                _ => false,
            },
            Item::Scene(_) => match n {
                Item::Group => true,
                Item::Scene(_) => true,
                _ => false,
            },
            Item::Page(_) => match n {
                Item::Page(_) => true,
                Item::Pmat(_) => true,
                _ => false,
            },
            Item::Mat(_) => match n {
                Item::Pmat(_) => true,
                Item::Mat(_) => true,
                Item::Ovimg(_) => true,
                _ => false,
            },
            Item::Ovimg(_) => match n {
                Item::Mat(_) => true,
                Item::Ovimg(_) => true,
                _ => false,
            },
            Item::Pmat(_) => match n {
                Item::Page(_) => true,
                Item::Pmat(_) => true,
                Item::Mat(_) => true,
                _ => false,
            },
        }
    }

    pub fn can_be_neighbor(p: &Item, n: &Item) -> (r: bool)
        ensures
            r == Self::can_be_neighbor_spec(*p, *n),
    {
        match p {
            Item::Group => match n {
                Item::Group => true,
                Item::Scene(_) => true,
                _ => false,
            },
            Item::Scene(_) => match n {
                Item::Group => true,
                Item::Scene(_) => true,
                _ => false,
            },
            Item::Page(_) => match n {
                Item::Page(_) => true,
                Item::Pmat(_) => true,
                _ => false,
            },
            Item::Mat(_) => match n {
                Item::Pmat(_) => true,
                Item::Mat(_) => true,
                Item::Ovimg(_) => true,
                _ => false,
            },
            Item::Ovimg(_) => match n {
                Item::Mat(_) => true,
                Item::Ovimg(_) => true,
                _ => false,
            },
            Item::Pmat(_) => match n {
                Item::Page(_) => true,
                Item::Pmat(_) => true,
                Item::Mat(_) => true,
                _ => false,
            },
        }
    }

    /// May a node holding `n` be placed near one holding `p` at all,
    /// picking whichever relation is legal?  The disjunction of the two
    /// tables, derived rather than written out; used by UI affordances
    /// to gray out invalid actions.
    pub open spec fn can_be_neighbor_or_child_auto_spec(p: Item, n: Item) -> bool {
        Self::can_be_child_spec(p, n) || Self::can_be_neighbor_spec(p, n)
    }

    pub fn can_be_neighbor_or_child_auto(p: &Item, n: &Item) -> (r: bool)
        ensures
            r == Self::can_be_neighbor_or_child_auto_spec(*p, *n),
    {
        Self::can_be_child(p, n) || Self::can_be_neighbor(p, n)
    }

    pub fn set_value(&mut self, v: Item)
        ensures
            *final(self) == (ScenarioNode { value: v, ..*old(self) }),
    {
        self.value = v;
    }

    pub fn set_bt(&mut self, bt: BranchType)
        ensures
            *final(self) == (ScenarioNode { bt, ..*old(self) }),
    {
        self.bt = bt;
    }

    pub fn set_child(&mut self, c: Box<ScenarioNode>)
        ensures
            *final(self) == (ScenarioNode { child: Some(c), ..*old(self) }),
    {
        self.child = Some(c);
    }

    pub fn set_neighbor(&mut self, n: Box<ScenarioNode>)
        ensures
            *final(self) == (ScenarioNode { neighbor: Some(n), ..*old(self) }),
    {
        self.neighbor = Some(n);
    }

    pub fn unset_neighbor(&mut self)
        ensures
            *final(self) == (ScenarioNode { neighbor: None, ..*old(self) }),
    {
        self.neighbor = None;
    }

    /// The label slot kind of a mat, page-sized mat or scene.
    pub fn get_label_type(&self) -> (r: Option<LabelType>)
        ensures
            r == (match self.value {
                Item::Mat(m) | Item::Pmat(m) => Some(m.lbl_type),
                Item::Scene(s) => Some(s.lbl_type),
                _ => None::<LabelType>,
            }),
    {
        match &self.value {
            Item::Mat(m) => Some(m.lbl_type),
            Item::Pmat(m) => Some(m.lbl_type),
            Item::Scene(s) => Some(s.lbl_type),
            _ => None,
        }
    }

    pub fn set_label_type(&mut self, lt: LabelType)
        ensures
            final(self).bt == old(self).bt && final(self).id == old(self).id && final(self).child
                == old(self).child && final(self).neighbor == old(self).neighbor,
            final(self).value == (match old(self).value {
                Item::Mat(m) => Item::Mat(Mat { lbl_type: lt, ..m }),
                Item::Pmat(m) => Item::Pmat(Mat { lbl_type: lt, ..m }),
                Item::Scene(s) => Item::Scene(Scene { lbl_type: lt, ..s }),
                v => v,
            }),
    {
        match &mut self.value {
            Item::Mat(m) => m.lbl_type = lt,
            Item::Pmat(m) => m.lbl_type = lt,
            Item::Scene(s) => s.lbl_type = lt,
            _ => (),
        }
    }

    /// The label name a mat, page-sized mat or scene carries.
    pub fn get_label(&self) -> (r: Option<String>)
        ensures
            r == (match self.value {
                Item::Mat(m) | Item::Pmat(m) => m.lbl,
                Item::Scene(s) => s.lbl,
                _ => None::<String>,
            }),
    {
        match &self.value {
            Item::Mat(m) => dup_opt_string(&m.lbl),
            Item::Pmat(m) => dup_opt_string(&m.lbl),
            Item::Scene(s) => dup_opt_string(&s.lbl),
            _ => None,
        }
    }

    pub fn set_label(&mut self, lbl: Option<String>)
        ensures
            final(self).bt == old(self).bt && final(self).id == old(self).id && final(self).child
                == old(self).child && final(self).neighbor == old(self).neighbor,
            final(self).value == (match old(self).value {
                Item::Mat(m) => Item::Mat(Mat { lbl, ..m }),
                Item::Pmat(m) => Item::Pmat(Mat { lbl, ..m }),
                Item::Scene(s) => Item::Scene(Scene { lbl, ..s }),
                v => v,
            }),
    {
        match &mut self.value {
            Item::Mat(m) => m.lbl = lbl,
            Item::Pmat(m) => m.lbl = lbl,
            Item::Scene(s) => s.lbl = lbl,
            _ => (),
        }
    }

    /// The rectangle of a mat: origin and size.
    pub fn get_mat_pos_dim(&self) -> (r: Option<(i32, i32, i32, i32)>)
        ensures
            r == (match self.value {
                Item::Mat(m) | Item::Pmat(m) => Some((m.pos.x, m.pos.y, m.dim.w, m.dim.h)),
                _ => None::<(i32, i32, i32, i32)>,
            }),
    {
        match &self.value {
            Item::Mat(m) => Some((m.pos.x, m.pos.y, m.dim.w, m.dim.h)),
            Item::Pmat(m) => Some((m.pos.x, m.pos.y, m.dim.w, m.dim.h)),
            _ => None,
        }
    }

    pub fn set_mat_pos_dim(&mut self, x: i32, y: i32, w: i32, h: i32)
        ensures
            final(self).bt == old(self).bt && final(self).id == old(self).id && final(self).child
                == old(self).child && final(self).neighbor == old(self).neighbor,
            final(self).value == (match old(self).value {
                Item::Mat(m) => Item::Mat(
                    Mat { pos: Position { x, y }, dim: Dimension { w, h }, ..m },
                ),
                Item::Pmat(m) => Item::Pmat(
                    Mat { pos: Position { x, y }, dim: Dimension { w, h }, ..m },
                ),
                v => v,
            }),
    {
        match &mut self.value {
            Item::Mat(m) => {
                m.pos = Position { x, y };
                m.dim = Dimension { w, h };
            },
            Item::Pmat(m) => {
                m.pos = Position { x, y };
                m.dim = Dimension { w, h };
            },
            _ => (),
        }
    }

    /// The fill color and alpha of a mat, as `[r, g, b, a]`.
    pub fn get_mat_rgba(&self) -> (r: Option<Vec<u32>>)
        ensures
            match self.value {
                Item::Mat(m) | Item::Pmat(m) => r matches Some(v) && v@ == seq![
                    m.col.r,
                    m.col.g,
                    m.col.b,
                    m.a,
                ],
                _ => r is None,
            },
    {
        match &self.value {
            Item::Mat(m) => Some(vec![m.col.r, m.col.g, m.col.b, m.a]),
            Item::Pmat(m) => Some(vec![m.col.r, m.col.g, m.col.b, m.a]),
            _ => None,
        }
    }

    pub fn set_mat_rgba(&mut self, rgba: Vec<u32>)
        requires
            rgba@.len() >= 4,
        ensures
            final(self).bt == old(self).bt && final(self).id == old(self).id && final(self).child
                == old(self).child && final(self).neighbor == old(self).neighbor,
            final(self).value == (match old(self).value {
                Item::Mat(m) => Item::Mat(
                    Mat {
                        col: Color { r: rgba@[0], g: rgba@[1], b: rgba@[2] },
                        a: rgba@[3],
                        ..m
                    },
                ),
                Item::Pmat(m) => Item::Pmat(
                    Mat {
                        col: Color { r: rgba@[0], g: rgba@[1], b: rgba@[2] },
                        a: rgba@[3],
                        ..m
                    },
                ),
                v => v,
            }),
    {
        match &mut self.value {
            Item::Mat(m) => {
                m.col.r = rgba[0];
                m.col.g = rgba[1];
                m.col.b = rgba[2];
                m.a = rgba[3];
            },
            Item::Pmat(m) => {
                m.col.r = rgba[0];
                m.col.g = rgba[1];
                m.col.b = rgba[2];
                m.a = rgba[3];
            },
            _ => (),
        }
    }

    /// The text a mat displays.
    pub fn get_mat_text(&self) -> (r: Option<String>)
        ensures
            r == (match self.value {
                Item::Mat(m) | Item::Pmat(m) => Some(m.text),
                _ => None::<String>,
            }),
    {
        match &self.value {
            Item::Mat(m) => Some(m.text.clone()),
            Item::Pmat(m) => Some(m.text.clone()),
            _ => None,
        }
    }

    pub fn set_mat_text(&mut self, text: &str)
        ensures
            final(self).bt == old(self).bt && final(self).id == old(self).id && final(self).child
                == old(self).child && final(self).neighbor == old(self).neighbor,
            match old(self).value {
                Item::Mat(m) => final(self).value matches Item::Mat(m2) && m2.text@ == text@ && m2
                    == (Mat { text: m2.text, ..m }),
                Item::Pmat(m) => final(self).value matches Item::Pmat(m2) && m2.text@ == text@
                    && m2 == (Mat { text: m2.text, ..m }),
                v => final(self).value == v,
            },
    {
        match &mut self.value {
            Item::Mat(m) => m.text = text.to_owned(),
            Item::Pmat(m) => m.text = text.to_owned(),
            _ => (),
        }
    }

    /// The text color and alpha of a mat, as `[r, g, b, a]`.
    pub fn get_mat_font_rgba(&self) -> (r: Option<Vec<u32>>)
        ensures
            match self.value {
                Item::Mat(m) | Item::Pmat(m) => r matches Some(v) && v@ == seq![
                    m.font_col.r,
                    m.font_col.g,
                    m.font_col.b,
                    m.font_a,
                ],
                _ => r is None,
            },
    {
        match &self.value {
            Item::Mat(m) => Some(vec![m.font_col.r, m.font_col.g, m.font_col.b, m.font_a]),
            Item::Pmat(m) => Some(vec![m.font_col.r, m.font_col.g, m.font_col.b, m.font_a]),
            _ => None,
        }
    }

    pub fn set_mat_font_rgba(&mut self, rgba: Vec<u32>)
        requires
            rgba@.len() >= 4,
        ensures
            final(self).bt == old(self).bt && final(self).id == old(self).id && final(self).child
                == old(self).child && final(self).neighbor == old(self).neighbor,
            final(self).value == (match old(self).value {
                Item::Mat(m) => Item::Mat(
                    Mat {
                        font_col: Color { r: rgba@[0], g: rgba@[1], b: rgba@[2] },
                        font_a: rgba@[3],
                        ..m
                    },
                ),
                Item::Pmat(m) => Item::Pmat(
                    Mat {
                        font_col: Color { r: rgba@[0], g: rgba@[1], b: rgba@[2] },
                        font_a: rgba@[3],
                        ..m
                    },
                ),
                v => v,
            }),
    {
        match &mut self.value {
            Item::Mat(m) => {
                m.font_col.r = rgba[0];
                m.font_col.g = rgba[1];
                m.font_col.b = rgba[2];
                m.font_a = rgba[3];
            },
            Item::Pmat(m) => {
                m.font_col.r = rgba[0];
                m.font_col.g = rgba[1];
                m.font_col.b = rgba[2];
                m.font_a = rgba[3];
            },
            _ => (),
        }
    }

    /// The secondary (outline) text color and alpha of a mat.
    pub fn get_mat_font_rgba_2(&self) -> (r: Option<Vec<u32>>)
        ensures
            match self.value {
                Item::Mat(m) | Item::Pmat(m) => r matches Some(v) && v@ == seq![
                    m.font_col_2.r,
                    m.font_col_2.g,
                    m.font_col_2.b,
                    m.font_a_2,
                ],
                _ => r is None,
            },
    {
        match &self.value {
            Item::Mat(m) => Some(vec![m.font_col_2.r, m.font_col_2.g, m.font_col_2.b, m.font_a_2]),
            Item::Pmat(m) => Some(vec![m.font_col_2.r, m.font_col_2.g, m.font_col_2.b, m.font_a_2]),
            _ => None,
        }
    }

    pub fn set_mat_font_rgba_2(&mut self, rgba: Vec<u32>)
        requires
            rgba@.len() >= 4,
        ensures
            final(self).bt == old(self).bt && final(self).id == old(self).id && final(self).child
                == old(self).child && final(self).neighbor == old(self).neighbor,
            final(self).value == (match old(self).value {
                Item::Mat(m) => Item::Mat(
                    Mat {
                        font_col_2: Color { r: rgba@[0], g: rgba@[1], b: rgba@[2] },
                        font_a_2: rgba@[3],
                        ..m
                    },
                ),
                Item::Pmat(m) => Item::Pmat(
                    Mat {
                        font_col_2: Color { r: rgba@[0], g: rgba@[1], b: rgba@[2] },
                        font_a_2: rgba@[3],
                        ..m
                    },
                ),
                v => v,
            }),
    {
        match &mut self.value {
            Item::Mat(m) => {
                m.font_col_2.r = rgba[0];
                m.font_col_2.g = rgba[1];
                m.font_col_2.b = rgba[2];
                m.font_a_2 = rgba[3];
            },
            Item::Pmat(m) => {
                m.font_col_2.r = rgba[0];
                m.font_col_2.g = rgba[1];
                m.font_col_2.b = rgba[2];
                m.font_a_2 = rgba[3];
            },
            _ => (),
        }
    }

    /// The font family name of a mat.
    pub fn get_mat_font_family(&self) -> (r: Option<String>)
        ensures
            r == (match self.value {
                Item::Mat(m) | Item::Pmat(m) => Some(m.font_family),
                _ => None::<String>,
            }),
    {
        match &self.value {
            Item::Mat(m) => Some(m.font_family.clone()),
            Item::Pmat(m) => Some(m.font_family.clone()),
            _ => None,
        }
    }

    pub fn set_mat_font_family(&mut self, font_family: &str)
        ensures
            final(self).bt == old(self).bt && final(self).id == old(self).id && final(self).child
                == old(self).child && final(self).neighbor == old(self).neighbor,
            match old(self).value {
                Item::Mat(m) => final(self).value matches Item::Mat(m2) && m2.font_family@
                    == font_family@ && m2 == (Mat { font_family: m2.font_family, ..m }),
                Item::Pmat(m) => final(self).value matches Item::Pmat(m2) && m2.font_family@
                    == font_family@ && m2 == (Mat { font_family: m2.font_family, ..m }),
                v => final(self).value == v,
            },
    {
        match &mut self.value {
            Item::Mat(m) => m.font_family = font_family.to_owned(),
            Item::Pmat(m) => m.font_family = font_family.to_owned(),
            _ => (),
        }
    }

    /// The font size of a mat.
    pub fn get_mat_font_size(&self) -> (r: Option<i32>)
        ensures
            r == (match self.value {
                Item::Mat(m) | Item::Pmat(m) => Some(m.font_size),
                _ => None::<i32>,
            }),
    {
        match &self.value {
            Item::Mat(m) => Some(m.font_size),
            Item::Pmat(m) => Some(m.font_size),
            _ => None,
        }
    }

    pub fn set_mat_font_size(&mut self, font_size: i32)
        ensures
            final(self).bt == old(self).bt && final(self).id == old(self).id && final(self).child
                == old(self).child && final(self).neighbor == old(self).neighbor,
            final(self).value == (match old(self).value {
                Item::Mat(m) => Item::Mat(Mat { font_size, ..m }),
                Item::Pmat(m) => Item::Pmat(Mat { font_size, ..m }),
                v => v,
            }),
    {
        match &mut self.value {
            Item::Mat(m) => m.font_size = font_size,
            Item::Pmat(m) => m.font_size = font_size,
            _ => (),
        }
    }

    /// The font weight name of a mat.
    pub fn get_mat_font_weight(&self) -> (r: Option<String>)
        ensures
            r == (match self.value {
                Item::Mat(m) | Item::Pmat(m) => Some(m.font_weight),
                _ => None::<String>,
            }),
    {
        match &self.value {
            Item::Mat(m) => Some(m.font_weight.clone()),
            Item::Pmat(m) => Some(m.font_weight.clone()),
            _ => None,
        }
    }

    pub fn set_mat_font_weight(&mut self, w: String)
        ensures
            final(self).bt == old(self).bt && final(self).id == old(self).id && final(self).child
                == old(self).child && final(self).neighbor == old(self).neighbor,
            final(self).value == (match old(self).value {
                Item::Mat(m) => Item::Mat(Mat { font_weight: w, ..m }),
                Item::Pmat(m) => Item::Pmat(Mat { font_weight: w, ..m }),
                v => v,
            }),
    {
        match &mut self.value {
            Item::Mat(m) => m.font_weight = w,
            Item::Pmat(m) => m.font_weight = w,
            _ => (),
        }
    }

    /// The secondary (outline) font weight name of a mat.
    pub fn get_mat_font_weight_2(&self) -> (r: Option<String>)
        ensures
            r == (match self.value {
                Item::Mat(m) | Item::Pmat(m) => Some(m.font_weight_2),
                _ => None::<String>,
            }),
    {
        match &self.value {
            Item::Mat(m) => Some(m.font_weight_2.clone()),
            Item::Pmat(m) => Some(m.font_weight_2.clone()),
            _ => None,
        }
    }

    pub fn set_mat_font_weight_2(&mut self, w: String)
        ensures
            final(self).bt == old(self).bt && final(self).id == old(self).id && final(self).child
                == old(self).child && final(self).neighbor == old(self).neighbor,
            final(self).value == (match old(self).value {
                Item::Mat(m) => Item::Mat(Mat { font_weight_2: w, ..m }),
                Item::Pmat(m) => Item::Pmat(Mat { font_weight_2: w, ..m }),
                v => v,
            }),
    {
        match &mut self.value {
            Item::Mat(m) => m.font_weight_2 = w,
            Item::Pmat(m) => m.font_weight_2 = w,
            _ => (),
        }
    }

    /// Whether a mat lays its text out vertically.
    pub fn get_mat_vertical(&self) -> (r: Option<bool>)
        ensures
            r == (match self.value {
                Item::Mat(m) | Item::Pmat(m) => Some(m.vertical),
                _ => None::<bool>,
            }),
    {
        match &self.value {
            Item::Mat(m) => Some(m.vertical),
            Item::Pmat(m) => Some(m.vertical),
            _ => None,
        }
    }

    pub fn set_mat_vertical(&mut self, v: bool)
        ensures
            final(self).bt == old(self).bt && final(self).id == old(self).id && final(self).child
                == old(self).child && final(self).neighbor == old(self).neighbor,
            final(self).value == (match old(self).value {
                Item::Mat(m) => Item::Mat(Mat { vertical: v, ..m }),
                Item::Pmat(m) => Item::Pmat(Mat { vertical: v, ..m }),
                w => w,
            }),
    {
        match &mut self.value {
            Item::Mat(m) => m.vertical = v,
            Item::Pmat(m) => m.vertical = v,
            _ => (),
        }
    }

    /// The corner radius of a mat.
    pub fn get_mat_r(&self) -> (r: Option<i32>)
        ensures
            r == (match self.value {
                Item::Mat(m) | Item::Pmat(m) => Some(m.r),
                _ => None::<i32>,
            }),
    {
        match &self.value {
            Item::Mat(m) => Some(m.r),
            Item::Pmat(m) => Some(m.r),
            _ => None,
        }
    }

    pub fn set_mat_r(&mut self, radius: i32)
        ensures
            final(self).bt == old(self).bt && final(self).id == old(self).id && final(self).child
                == old(self).child && final(self).neighbor == old(self).neighbor,
            final(self).value == (match old(self).value {
                Item::Mat(m) => Item::Mat(Mat { r: radius, ..m }),
                Item::Pmat(m) => Item::Pmat(Mat { r: radius, ..m }),
                v => v,
            }),
    {
        match &mut self.value {
            Item::Mat(m) => m.r = radius,
            Item::Pmat(m) => m.r = radius,
            _ => (),
        }
    }

    /// The background image path of a mat.
    pub fn get_mat_bgimg(&self) -> (r: Option<String>)
        ensures
            r == (match self.value {
                Item::Mat(m) | Item::Pmat(m) => m.bgimg,
                _ => None::<String>,
            }),
    {
        match &self.value {
            Item::Mat(m) => dup_opt_string(&m.bgimg),
            Item::Pmat(m) => dup_opt_string(&m.bgimg),
            _ => None,
        }
    }

    pub fn set_mat_bgimg(&mut self, p: Option<String>)
        ensures
            final(self).bt == old(self).bt && final(self).id == old(self).id && final(self).child
                == old(self).child && final(self).neighbor == old(self).neighbor,
            final(self).value == (match old(self).value {
                Item::Mat(m) => Item::Mat(Mat { bgimg: p, ..m }),
                Item::Pmat(m) => Item::Pmat(Mat { bgimg: p, ..m }),
                v => v,
            }),
    {
        match &mut self.value {
            Item::Mat(m) => m.bgimg = p,
            Item::Pmat(m) => m.bgimg = p,
            _ => (),
        }
    }

    /// Whether a mat draws its background image.
    pub fn get_mat_bg_en(&self) -> (r: Option<bool>)
        ensures
            r == (match self.value {
                Item::Mat(m) | Item::Pmat(m) => Some(m.bg_en),
                _ => None::<bool>,
            }),
    {
        match &self.value {
            Item::Mat(m) => Some(m.bg_en),
            Item::Pmat(m) => Some(m.bg_en),
            _ => None,
        }
    }

    pub fn set_mat_bg_en(&mut self, en: bool)
        ensures
            final(self).bt == old(self).bt && final(self).id == old(self).id && final(self).child
                == old(self).child && final(self).neighbor == old(self).neighbor,
            final(self).value == (match old(self).value {
                Item::Mat(m) => Item::Mat(Mat { bg_en: en, ..m }),
                Item::Pmat(m) => Item::Pmat(Mat { bg_en: en, ..m }),
                v => v,
            }),
    {
        match &mut self.value {
            Item::Mat(m) => m.bg_en = en,
            Item::Pmat(m) => m.bg_en = en,
            _ => (),
        }
    }

    /// The text anchor offset of a mat.
    pub fn get_mat_text_pos(&self) -> (r: Option<(i32, i32)>)
        ensures
            r == (match self.value {
                Item::Mat(m) | Item::Pmat(m) => Some((m.text_pos.x, m.text_pos.y)),
                _ => None::<(i32, i32)>,
            }),
    {
        match &self.value {
            Item::Mat(m) => Some((m.text_pos.x, m.text_pos.y)),
            Item::Pmat(m) => Some((m.text_pos.x, m.text_pos.y)),
            _ => None,
        }
    }

    pub fn set_mat_text_pos(&mut self, x: i32, y: i32)
        ensures
            final(self).bt == old(self).bt && final(self).id == old(self).id && final(self).child
                == old(self).child && final(self).neighbor == old(self).neighbor,
            final(self).value == (match old(self).value {
                Item::Mat(m) => Item::Mat(Mat { text_pos: Position { x, y }, ..m }),
                Item::Pmat(m) => Item::Pmat(Mat { text_pos: Position { x, y }, ..m }),
                v => v,
            }),
    {
        match &mut self.value {
            Item::Mat(m) => m.text_pos = Position { x, y },
            Item::Pmat(m) => m.text_pos = Position { x, y },
            _ => (),
        }
    }

    /// The background color of a scene, as `[r, g, b]`.
    pub fn get_scene_bgcol(&self) -> (r: Option<Vec<u32>>)
        ensures
            match self.value {
                Item::Scene(s) => r matches Some(v) && v@ == seq![s.bgcol.r, s.bgcol.g, s.bgcol.b],
                _ => r is None,
            },
    {
        match &self.value {
            Item::Scene(s) => Some(vec![s.bgcol.r, s.bgcol.g, s.bgcol.b]),
            _ => None,
        }
    }

    /// The background color of a scene with a full alpha channel.
    pub fn get_scene_bg_rgba(&self) -> (r: Option<Vec<u32>>)
        ensures
            match self.value {
                Item::Scene(s) => r matches Some(v) && v@ == seq![
                    s.bgcol.r,
                    s.bgcol.g,
                    s.bgcol.b,
                    255u32,
                ],
                _ => r is None,
            },
    {
        match &self.value {
            Item::Scene(s) => Some(vec![s.bgcol.r, s.bgcol.g, s.bgcol.b, 255]),
            _ => None,
        }
    }

    pub fn set_scene_bg_rgba(&mut self, rgba: Vec<u32>)
        requires
            rgba@.len() >= 3,
        ensures
            final(self).bt == old(self).bt && final(self).id == old(self).id && final(self).child
                == old(self).child && final(self).neighbor == old(self).neighbor,
            final(self).value == (match old(self).value {
                Item::Scene(s) => Item::Scene(
                    Scene { bgcol: Color { r: rgba@[0], g: rgba@[1], b: rgba@[2] }, ..s },
                ),
                v => v,
            }),
    {
        match &mut self.value {
            Item::Scene(s) => {
                s.bgcol.r = rgba[0];
                s.bgcol.g = rgba[1];
                s.bgcol.b = rgba[2];
            },
            _ => (),
        }
    }

    /// The crop rectangle of a scene and whether it applies.
    pub fn get_scene_crop_pos_dim(&self) -> (r: Option<(i32, i32, i32, i32, bool)>)
        ensures
            r == (match self.value {
                Item::Scene(s) => Some(
                    (s.crop.pos.x, s.crop.pos.y, s.crop.dim.w, s.crop.dim.h, s.crop_en),
                ),
                _ => None::<(i32, i32, i32, i32, bool)>,
            }),
    {
        match &self.value {
            Item::Scene(s) => Some((s.crop.pos.x, s.crop.pos.y, s.crop.dim.w, s.crop.dim.h, s.crop_en)),
            _ => None,
        }
    }

    pub fn set_scene_crop_pos_dim(&mut self, x: i32, y: i32, w: i32, h: i32)
        ensures
            final(self).bt == old(self).bt && final(self).id == old(self).id && final(self).child
                == old(self).child && final(self).neighbor == old(self).neighbor,
            final(self).value == (match old(self).value {
                Item::Scene(s) => Item::Scene(
                    Scene {
                        crop: CropInfo { pos: Position { x, y }, dim: Dimension { w, h } },
                        ..s
                    },
                ),
                v => v,
            }),
    {
        match &mut self.value {
            Item::Scene(s) => {
                s.crop = CropInfo { pos: Position { x, y }, dim: Dimension { w, h } };
            },
            _ => (),
        }
    }

    /// Whether a scene's crop rectangle applies.
    pub fn get_scene_crop_en(&self) -> (r: Option<bool>)
        ensures
            r == (match self.value {
                Item::Scene(s) => Some(s.crop_en),
                _ => None::<bool>,
            }),
    {
        match &self.value {
            Item::Scene(s) => Some(s.crop_en),
            _ => None,
        }
    }

    pub fn set_scene_crop_en(&mut self, en: bool)
        ensures
            final(self).bt == old(self).bt && final(self).id == old(self).id && final(self).child
                == old(self).child && final(self).neighbor == old(self).neighbor,
            final(self).value == (match old(self).value {
                Item::Scene(s) => Item::Scene(Scene { crop_en: en, ..s }),
                v => v,
            }),
    {
        match &mut self.value {
            Item::Scene(s) => s.crop_en = en,
            _ => (),
        }
    }

    /// The background image path of a scene.
    pub fn get_scene_bgimg(&self) -> (r: Option<String>)
        ensures
            r == (match self.value {
                Item::Scene(s) => s.bgimg,
                _ => None::<String>,
            }),
    {
        match &self.value {
            Item::Scene(s) => dup_opt_string(&s.bgimg),
            _ => None,
        }
    }

    pub fn set_scene_bgimg(&mut self, p: Option<String>)
        ensures
            final(self).bt == old(self).bt && final(self).id == old(self).id && final(self).child
                == old(self).child && final(self).neighbor == old(self).neighbor,
            final(self).value == (match old(self).value {
                Item::Scene(s) => Item::Scene(Scene { bgimg: p, ..s }),
                v => v,
            }),
    {
        match &mut self.value {
            Item::Scene(s) => s.bgimg = p,
            _ => (),
        }
    }

    /// Whether a scene draws its background image.
    pub fn get_scene_bg_en(&self) -> (r: Option<bool>)
        ensures
            r == (match self.value {
                Item::Scene(s) => Some(s.bg_en),
                _ => None::<bool>,
            }),
    {
        match &self.value {
            Item::Scene(s) => Some(s.bg_en),
            _ => None,
        }
    }

    pub fn set_scene_bg_en(&mut self, en: bool)
        ensures
            final(self).bt == old(self).bt && final(self).id == old(self).id && final(self).child
                == old(self).child && final(self).neighbor == old(self).neighbor,
            final(self).value == (match old(self).value {
                Item::Scene(s) => Item::Scene(Scene { bg_en: en, ..s }),
                v => v,
            }),
    {
        match &mut self.value {
            Item::Scene(s) => s.bg_en = en,
            _ => (),
        }
    }

    /// The one-line summary spec: a kind prefix, then the text a list
    /// row shows for the node — a mat's text with line breaks removed,
    /// a scene's background image path, a page's name.
    pub open spec fn summary_str_spec(v: Item) -> Seq<char> {
        match v {
            Item::Group => "Group:"@,
            Item::Scene(s) => "Scene:"@ + (match s.bgimg {
                Some(b) => b@,
                None => Seq::<char>::empty(),
            }),
            Item::Page(p) => "Page:"@ + p.name@,
            Item::Mat(m) => "Mat:"@ + strip_newlines(m.text@),
            Item::Ovimg(_) => "Ovimg:"@,
            Item::Pmat(m) => "Pmat:"@ + strip_newlines(m.text@),
        }
    }

    /// The one-line summary a list row shows for this node.
    pub fn summary_str(&self) -> (r: String)
        ensures
            r@ == Self::summary_str_spec(self.value),
    {
        match &self.value {
            Item::Group => "Group:".to_owned(),
            Item::Scene(s) => {
                let mut out = "Scene:".to_owned();
                match &s.bgimg {
                    Some(b) => {
                        out.append(b.as_str());
                    },
                    None => {},
                }
                out
            },
            Item::Page(p) => {
                let mut out = "Page:".to_owned();
                out.append(p.name.as_str());
                out
            },
            Item::Mat(m) => {
                let mut out = "Mat:".to_owned();
                let text = strip_newlines_x(m.text.as_str());
                out.append(text.as_str());
                out
            },
            Item::Ovimg(_) => "Ovimg:".to_owned(),
            Item::Pmat(m) => {
                let mut out = "Pmat:".to_owned();
                let text = strip_newlines_x(m.text.as_str());
                out.append(text.as_str());
                out
            },
        }
    }

    pub fn is_mat(&self) -> (r: bool)
        ensures
            r == (self.value matches Item::Mat(_)),
    {
        if let Item::Mat(_) = &self.value { true } else { false }
    }

    pub fn is_scene(&self) -> (r: bool)
        ensures
            r == (self.value matches Item::Scene(_)),
    {
        if let Item::Scene(_) = &self.value { true } else { false }
    }

    pub fn is_group(&self) -> (r: bool)
        ensures
            r == (self.value matches Item::Group),
    {
        if let Item::Group = &self.value { true } else { false }
    }

    pub fn is_pmat(&self) -> (r: bool)
        ensures
            r == (self.value matches Item::Pmat(_)),
    {
        if let Item::Pmat(_) = &self.value { true } else { false }
    }
}

impl Default for Page {
    fn default() -> (r: Self)
        ensures
            r.name@ == Seq::<char>::empty(),
    {
        Page { name: String::new() }
    }
}

impl Default for Scene {
    fn default() -> (r: Self)
        ensures
            r.bgimg is None,
            r.bg_en == true,
            r.bgcol == (Color { r: 128u32, g: 128u32, b: 128u32 }),
            r.crop == (CropInfo {
                pos: Position { x: 0i32, y: 0i32 },
                dim: Dimension { w: 100i32, h: 100i32 },
            }),
            r.crop_en == false,
            r.lbl is None,
            r.lbl_type == LabelType::NoLabel,
    {
        Scene {
            bgimg: None,
            bg_en: true,
            bgcol: Color::default(),
            crop: CropInfo { pos: Position::default(), dim: Dimension::default() },
            crop_en: false,
            lbl: None,
            lbl_type: LabelType::NoLabel,
        }
    }
}

impl Default for Mat {
    fn default() -> (r: Self)
        ensures
            r.col == (Color { r: 105u32, g: 124u32, b: 144u32 }),
            r.pos == (Position { x: 0i32, y: 0i32 }),
            r.dim == (Dimension { w: 100i32, h: 100i32 }),
            r.r == 8,
            r.a == 134,
            r.src is None,
            r.lbl is None,
            r.lbl_type == LabelType::NoLabel,
            r.name@ == "mat"@,
            r.text@ == "text"@,
            r.font_col == (Color { r: 0u32, g: 0u32, b: 0u32 }),
            r.font_a == 162,
            r.font_weight@ == "Bold"@,
            r.font_col_2 == (Color { r: 255u32, g: 255u32, b: 255u32 }),
            r.font_a_2 == 177,
            r.font_weight_2@ == "Normal"@,
            r.font_size == 22,
            r.font_family@ == "Rounded M+ 1m"@,
            r.vertical == false,
            r.bgimg is None,
            r.bg_en == false,
            r.text_pos == (Position { x: 0i32, y: 0i32 }),
    {
        Mat {
            col: Color { r: 105, g: 124, b: 144 },
            pos: Position::default(),
            dim: Dimension::default(),
            r: 8,
            a: 134,
            src: None,
            lbl: None,
            lbl_type: LabelType::NoLabel,
            name: "mat".to_owned(),
            font_col: Color { r: 0, g: 0, b: 0 },
            font_a: 162,
            font_weight: "Bold".to_owned(),
            font_col_2: Color { r: 255, g: 255, b: 255 },
            font_a_2: 177,
            font_weight_2: "Normal".to_owned(),
            font_size: 22,
            font_family: "Rounded M+ 1m".to_owned(),
            vertical: false,
            text: "text".to_owned(),
            bgimg: None,
            bg_en: false,
            text_pos: Position::from_xy(0, 0),
        }
    }
}

impl Default for Ovimg {
    fn default() -> (r: Self)
        ensures
            r.path@ == Seq::<char>::empty(),
            r.pos == (Position { x: 0i32, y: 0i32 }),
    {
        Ovimg { path: String::new(), pos: Position::default() }
    }
}

impl Default for Item {
    fn default() -> (r: Self)
        ensures
            r is Group,
    {
        Item::Group
    }
}

/// A copy of an optional string, equal to the original.
fn dup_opt_string(o: &Option<String>) -> (r: Option<String>)
    ensures
        r == *o,
{
    match o {
        None => None,
        Some(s) => Some(s.clone()),
    }
}

impl Page {
    /// A copy of this page, equal to the original.
    pub fn duplicate(&self) -> (r: Page)
        ensures
            r == *self,
    {
        Page { name: self.name.clone() }
    }
}

impl Scene {
    /// A copy of this scene, equal to the original.
    pub fn duplicate(&self) -> (r: Scene)
        ensures
            r == *self,
    {
        Scene {
            bgimg: dup_opt_string(&self.bgimg),
            bg_en: self.bg_en,
            bgcol: self.bgcol,
            crop: self.crop,
            crop_en: self.crop_en,
            lbl: dup_opt_string(&self.lbl),
            lbl_type: self.lbl_type,
        }
    }
}

impl Mat {
    /// A copy of this mat, equal to the original.
    pub fn duplicate(&self) -> (r: Mat)
        ensures
            r == *self,
    {
        Mat {
            col: self.col,
            pos: self.pos,
            dim: self.dim,
            r: self.r,
            a: self.a,
            src: dup_opt_string(&self.src),
            lbl: dup_opt_string(&self.lbl),
            lbl_type: self.lbl_type,
            name: self.name.clone(),
            font_col: self.font_col,
            font_a: self.font_a,
            font_weight: self.font_weight.clone(),
            font_col_2: self.font_col_2,
            font_a_2: self.font_a_2,
            font_weight_2: self.font_weight_2.clone(),
            font_size: self.font_size,
            font_family: self.font_family.clone(),
            vertical: self.vertical,
            text: self.text.clone(),
            bgimg: dup_opt_string(&self.bgimg),
            bg_en: self.bg_en,
            text_pos: self.text_pos,
        }
    }
}

impl Ovimg {
    /// A copy of this overlay image, equal to the original.
    pub fn duplicate(&self) -> (r: Ovimg)
        ensures
            r == *self,
    {
        Ovimg { path: self.path.clone(), pos: self.pos }
    }
}

impl Item {
    /// A copy of this item, equal to the original.
    pub fn duplicate(&self) -> (r: Item)
        ensures
            r == *self,
    {
        match self {
            Item::Group => Item::Group,
            Item::Scene(s) => Item::Scene(s.duplicate()),
            Item::Page(p) => Item::Page(p.duplicate()),
            Item::Mat(m) => Item::Mat(m.duplicate()),
            Item::Ovimg(o) => Item::Ovimg(o.duplicate()),
            Item::Pmat(m) => Item::Pmat(m.duplicate()),
        }
    }
}

/// A node that may define or reference a label.
pub trait LabelledItem {
    fn get_label(&self) -> Option<String>;

    fn get_label_type(&self) -> LabelType;
}

impl LabelledItem for Scene {
    fn get_label(&self) -> Option<String> {
        match &self.lbl {
            Some(l) => Some(l.clone()),
            None => None,
        }
    }

    fn get_label_type(&self) -> LabelType {
        self.lbl_type
    }
}

impl LabelledItem for Mat {
    fn get_label(&self) -> Option<String> {
        match &self.lbl {
            Some(l) => Some(l.clone()),
            None => None,
        }
    }

    fn get_label_type(&self) -> LabelType {
        self.lbl_type
    }
}

} // verus!
