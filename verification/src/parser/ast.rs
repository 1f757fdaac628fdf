//! Syntax tree of Verilog module headers, with the mathematical model of each
//! node and its textual rendering.
use vstd::prelude::*;

verus! {

/// A position in the source text (both counted from 1).
#[derive(Debug, Clone, Copy, PartialEq, Eq, Structural)]
pub struct Span {
    pub line: usize,
    pub column: usize,
}

/// A comment found in the source.
#[derive(Debug, Clone)]
pub enum Comment {
    /// Single-line comment: `// text`
    Line(String),
    /// Multi-line comment: `/* text */`
    Block(String),
}

/// Model of a [`Comment`].
pub enum SpecComment {
    Line(Seq<char>),
    Block(Seq<char>),
}

impl SpecComment {
    /// The text of the comment, without its delimiters.
    pub open spec fn text(self) -> Seq<char> {
        match self {
            SpecComment::Line(t) => t,
            SpecComment::Block(t) => t,
        }
    }
}

impl View for Comment {
    type V = SpecComment;

    open spec fn view(&self) -> SpecComment {
        match self {
            Comment::Line(t) => SpecComment::Line(t@),
            Comment::Block(t) => SpecComment::Block(t@),
        }
    }
}

pub open spec fn comments_view(cs: Seq<Comment>) -> Seq<SpecComment> {
    cs.map_values(|c: Comment| c@)
}

impl Comment {
    /// The text of the comment, without its delimiters.
    pub fn display(&self) -> (r: String)
        ensures
            r@ == self@.text(),
    {
        match self {
            Comment::Line(t) => t.clone(),
            Comment::Block(t) => t.clone(),
        }
    }
}

/// A copy of a comment.
pub(crate) fn copy_comment(c: &Comment) -> (r: Comment)
    ensures
        r@ == c@,
{
    match c {
        Comment::Line(t) => Comment::Line(t.clone()),
        Comment::Block(t) => Comment::Block(t.clone()),
    }
}

/// Port direction in Verilog.
#[derive(Debug, Clone, Copy, PartialEq, Eq, Structural)]
pub enum PortDirection {
    Input,
    Output,
    Inout,
    Ref,
    ConstRef,
    OutputRef,
    InoutRef,
}

/// The Verilog keyword(s) of a direction.
pub open spec fn direction_keyword(d: PortDirection) -> Seq<char> {
    match d {
        PortDirection::Input => "input"@,
        PortDirection::Output => "output"@,
        PortDirection::Inout => "inout"@,
        PortDirection::Ref => "ref"@,
        PortDirection::ConstRef => "const ref"@,
        PortDirection::OutputRef => "output ref"@,
        PortDirection::InoutRef => "inout ref"@,
    }
}

impl PortDirection {
    /// The Verilog keyword(s) of this direction.
    pub fn display(&self) -> (r: String)
        ensures
            r@ == direction_keyword(*self),
    {
        let s = match self {
            PortDirection::Input => "input",
            PortDirection::Output => "output",
            PortDirection::Inout => "inout",
            PortDirection::Ref => "ref",
            PortDirection::ConstRef => "const ref",
            PortDirection::OutputRef => "output ref",
            PortDirection::InoutRef => "inout ref",
        };
        s.to_owned()
    }
}

/// Port type in Verilog.
#[derive(Debug, Clone, Copy, PartialEq, Eq, Structural)]
pub enum PortType {
    Wire,
    Reg,
    Logic,
    Wand,
    Tri,
    Triand,
    Trior,
    Tri0,
    Tri1,
    Supply0,
    Supply1,
    Integer,
    Time,
    Signed,
    Unsigned,
    Packed,
}

/// The Verilog keyword of a port type.
pub open spec fn type_keyword(t: PortType) -> Seq<char> {
    match t {
        PortType::Wire => "wire"@,
        PortType::Reg => "reg"@,
        PortType::Logic => "logic"@,
        PortType::Wand => "wand"@,
        PortType::Tri => "tri"@,
        PortType::Triand => "triand"@,
        PortType::Trior => "trior"@,
        PortType::Tri0 => "tri0"@,
        PortType::Tri1 => "tri1"@,
        PortType::Supply0 => "supply0"@,
        PortType::Supply1 => "supply1"@,
        PortType::Integer => "integer"@,
        PortType::Time => "time"@,
        PortType::Signed => "signed"@,
        PortType::Unsigned => "unsigned"@,
        PortType::Packed => "packed"@,
    }
}

impl PortType {
    /// The Verilog keyword of this type.
    pub fn display(&self) -> (r: String)
        ensures
            r@ == type_keyword(*self),
    {
        let s = match self {
            PortType::Wire => "wire",
            PortType::Reg => "reg",
            PortType::Logic => "logic",
            PortType::Wand => "wand",
            PortType::Tri => "tri",
            PortType::Triand => "triand",
            PortType::Trior => "trior",
            PortType::Tri0 => "tri0",
            PortType::Tri1 => "tri1",
            PortType::Supply0 => "supply0",
            PortType::Supply1 => "supply1",
            PortType::Integer => "integer",
            PortType::Time => "time",
            PortType::Signed => "signed",
            PortType::Unsigned => "unsigned",
            PortType::Packed => "packed",
        };
        s.to_owned()
    }
}

/// A dimension range `[MSB:LSB]`.
#[derive(Debug, Clone)]
pub struct Dimension {
    pub msb: String,
    pub lsb: String,
}

/// Model of a [`Dimension`].
pub struct SpecDimension {
    pub msb: Seq<char>,
    pub lsb: Seq<char>,
}

impl View for Dimension {
    type V = SpecDimension;

    open spec fn view(&self) -> SpecDimension {
        SpecDimension { msb: self.msb@, lsb: self.lsb@ }
    }
}

pub open spec fn dims_view(ds: Seq<Dimension>) -> Seq<SpecDimension> {
    ds.map_values(|d: Dimension| d@)
}

/// A copy of a list of dimensions.
pub(crate) fn copy_dims(ds: &Vec<Dimension>) -> (r: Vec<Dimension>)
    ensures
        dims_view(r@) == dims_view(ds@),
{
    let mut r: Vec<Dimension> = Vec::new();
    let mut i: usize = 0;
    while i < ds.len()
        invariant
            i <= ds@.len(),
            dims_view(r@) == dims_view(ds@).take(i as int),
        decreases ds@.len() - i,
    {
        let d = Dimension { msb: ds[i].msb.clone(), lsb: ds[i].lsb.clone() };
        let ghost old_r = r@;
        r.push(d);
        proof {
            assert(dims_view(r@) =~= dims_view(old_r).push(d@));
            assert(dims_view(ds@).take(i + 1) =~= dims_view(ds@).take(i as int).push(ds@[i as int]@));
        }
        i = i + 1;
    }
    proof {
        assert(dims_view(ds@).take(ds@.len() as int) =~= dims_view(ds@));
    }
    r
}

/// `[msb:lsb]`
pub open spec fn dimension_text(d: SpecDimension) -> Seq<char> {
    "["@ + d.msb + ":"@ + d.lsb + "]"@
}

impl Dimension {
    /// The dimension as Verilog writes it: `[msb:lsb]`.
    pub fn display(&self) -> (r: String)
        ensures
            r@ == dimension_text(self@),
    {
        let mut r = String::new();
        r.append("[");
        r.append(self.msb.as_str());
        r.append(":");
        r.append(self.lsb.as_str());
        r.append("]");
        r
    }
}

/// A port in a Verilog module.
#[derive(Debug, Clone)]
pub struct Port {
    /// Port name
    pub name: String,
    /// Port direction (input/output/inout, etc.)
    pub direction: PortDirection,
    /// Port type (wire/reg/logic, etc.) - None for new-style ports with implicit type
    pub port_type: Option<PortType>,
    /// Array dimensions if this is a vector
    pub dimensions: Vec<Dimension>,
    /// Comments that appear before this port declaration
    pub leading_comments: Vec<Comment>,
    /// Comments that appear on the same line after the port name
    pub inline_comment: Option<Comment>,
    /// Comments that appear after this port declaration (before next port)
    pub trailing_comments: Vec<Comment>,
}

/// Model of a [`Port`].
pub struct SpecPort {
    pub name: Seq<char>,
    pub direction: PortDirection,
    pub port_type: Option<PortType>,
    pub dimensions: Seq<SpecDimension>,
    pub leading_comments: Seq<SpecComment>,
    pub inline_comment: Option<SpecComment>,
    pub trailing_comments: Seq<SpecComment>,
}

impl View for Port {
    type V = SpecPort;

    open spec fn view(&self) -> SpecPort {
        SpecPort {
            name: self.name@,
            direction: self.direction,
            port_type: self.port_type,
            dimensions: dims_view(self.dimensions@),
            leading_comments: comments_view(self.leading_comments@),
            inline_comment: match self.inline_comment {
                Some(c) => Some(c@),
                None => None,
            },
            trailing_comments: comments_view(self.trailing_comments@),
        }
    }
}

pub open spec fn ports_view(ps: Seq<Port>) -> Seq<SpecPort> {
    ps.map_values(|p: Port| p@)
}

/// A parameter in a Verilog module.
#[derive(Debug, Clone)]
pub struct Parameter {
    /// Parameter name
    pub name: String,
    /// Parameter value expression
    pub value: String,
    /// Optional parameter type (int, bit, logic, signed, unsigned)
    pub param_type: Option<String>,
    /// Array dimensions if this is a vector parameter
    pub dimensions: Vec<Dimension>,
    /// Comments that appear before this parameter
    pub leading_comments: Vec<Comment>,
}

/// Model of a [`Parameter`].
pub struct SpecParameter {
    pub name: Seq<char>,
    pub value: Seq<char>,
    pub param_type: Option<Seq<char>>,
    pub dimensions: Seq<SpecDimension>,
    pub leading_comments: Seq<SpecComment>,
}

impl View for Parameter {
    type V = SpecParameter;

    open spec fn view(&self) -> SpecParameter {
        SpecParameter {
            name: self.name@,
            value: self.value@,
            param_type: match self.param_type {
                Some(t) => Some(t@),
                None => None,
            },
            dimensions: dims_view(self.dimensions@),
            leading_comments: comments_view(self.leading_comments@),
        }
    }
}

pub open spec fn params_view(ps: Seq<Parameter>) -> Seq<SpecParameter> {
    ps.map_values(|p: Parameter| p@)
}

/// A complete Verilog module.
#[derive(Debug, Clone)]
pub struct Module {
    /// Module name
    pub name: String,
    /// Module parameters (if any)
    pub parameters: Vec<Parameter>,
    /// Module ports
    pub ports: Vec<Port>,
    /// Module declaration comments
    pub header_comments: Vec<Comment>,
    /// Comments between module declaration and end
    pub body_comments: Vec<Comment>,
}

/// Model of a [`Module`].
pub struct SpecModule {
    pub name: Seq<char>,
    pub parameters: Seq<SpecParameter>,
    pub ports: Seq<SpecPort>,
    pub header_comments: Seq<SpecComment>,
    pub body_comments: Seq<SpecComment>,
}

impl View for Module {
    type V = SpecModule;

    open spec fn view(&self) -> SpecModule {
        SpecModule {
            name: self.name@,
            parameters: params_view(self.parameters@),
            ports: ports_view(self.ports@),
            header_comments: comments_view(self.header_comments@),
            body_comments: comments_view(self.body_comments@),
        }
    }
}

pub open spec fn modules_view(ms: Seq<Module>) -> Seq<SpecModule> {
    ms.map_values(|m: Module| m@)
}

/// The dimensions written one after the other.
pub open spec fn dims_text(ds: Seq<SpecDimension>) -> Seq<char>
    decreases ds.len(),
{
    if ds.len() == 0 {
        Seq::empty()
    } else {
        dims_text(ds.drop_last()) + dimension_text(ds.last())
    }
}

/// A port as Verilog-like text: direction, name, dimensions, then the type.
pub open spec fn port_text(p: SpecPort) -> Seq<char> {
    direction_keyword(p.direction) + " "@ + p.name + dims_text(p.dimensions) + match p.port_type {
        Some(t) => " "@ + type_keyword(t),
        None => Seq::empty(),
    }
}

/// `items` separated by `sep`.
pub open spec fn join(items: Seq<Seq<char>>, sep: Seq<char>) -> Seq<char>
    decreases items.len(),
{
    if items.len() == 0 {
        Seq::empty()
    } else if items.len() == 1 {
        items[0]
    } else {
        join(items.drop_last(), sep) + sep + items.last()
    }
}

/// A module header as text: `module name(port, port)` and a newline.
pub open spec fn module_text(m: SpecModule) -> Seq<char> {
    "module "@ + m.name + "("@ + join(m.ports.map_values(|p: SpecPort| port_text(p)), ", "@)
        + ")\n"@
}

impl Port {
    /// The port as Verilog-like text: direction, name, dimensions, then the type.
    pub fn display(&self) -> (r: String)
        ensures
            r@ == port_text(self@),
    {
        let mut r = self.direction.display();
        r.append(" ");
        r.append(self.name.as_str());
        let mut i: usize = 0;
        while i < self.dimensions.len()
            invariant
                i <= self.dimensions@.len(),
                r@ == direction_keyword(self.direction) + " "@ + self.name@ + dims_text(
                    dims_view(self.dimensions@).take(i as int),
                ),
            decreases self.dimensions@.len() - i,
        {
            let d = self.dimensions[i].display();
            r.append(d.as_str());
            proof {
                let dv = dims_view(self.dimensions@);
                assert(dv.take(i + 1).drop_last() =~= dv.take(i as int));
            }
            i = i + 1;
        }
        proof {
            let dv = dims_view(self.dimensions@);
            assert(dv.take(dv.len() as int) =~= dv);
        }
        match &self.port_type {
            Some(t) => {
                r.append(" ");
                let k = t.display();
                r.append(k.as_str());
            },
            None => {},
        }
        r
    }
}

impl Module {
    /// The module header as text: `module name(port, port)` and a newline.
    pub fn display(&self) -> (r: String)
        ensures
            r@ == module_text(self@),
    {
        let ghost texts = self@.ports.map_values(|p: SpecPort| port_text(p));
        let mut r = String::new();
        r.append("module ");
        r.append(self.name.as_str());
        r.append("(");
        let mut i: usize = 0;
        while i < self.ports.len()
            invariant
                i <= self.ports@.len(),
                texts.len() == self.ports@.len(),
                forall|k: int| 0 <= k < texts.len() ==> texts[k] == port_text(#[trigger] self.ports@[k]@),
                r@ == "module "@ + self.name@ + "("@ + join(texts.take(i as int), ", "@),
            decreases self.ports@.len() - i,
        {
            let t = self.ports[i].display();
            if i > 0 {
                r.append(", ");
            }
            r.append(t.as_str());
            proof {
                assert(texts.take(i + 1).drop_last() =~= texts.take(i as int));
                if i == 0 {
                    assert(texts.take(1) =~= seq![texts[0]]);
                }
            }
            i = i + 1;
        }
        r.append(")\n");
        proof {
            assert(texts.take(texts.len() as int) =~= texts);
        }
        r
    }
}

proof fn lemma_dims_text_flatten(ds: Seq<SpecDimension>)
    ensures
        dims_text(ds) == ds.map_values(|d: SpecDimension| dimension_text(d)).flatten(),
    decreases ds.len(),
{
    if ds.len() > 0 {
        let texts = ds.map_values(|d: SpecDimension| dimension_text(d));
        lemma_dims_text_flatten(ds.drop_last());
        assert(ds.drop_last().map_values(|d: SpecDimension| dimension_text(d)) =~= texts.drop_last());
        assert(texts.drop_last().push(texts.last()) =~= texts);
        texts.drop_last().lemma_flatten_push(texts.last());
    }
}

/// The text of a port is its direction keyword, a space and its name, then
/// the text `[msb:lsb]` of every one of its dimensions in order, then, when
/// it has a type, a space and the type keyword.
pub proof fn lemma_port_text_parts(p: SpecPort)
    ensures
        port_text(p) == direction_keyword(p.direction) + " "@ + p.name + p.dimensions.map_values(
            |d: SpecDimension| "["@ + d.msb + ":"@ + d.lsb + "]"@,
        ).flatten() + (match p.port_type {
            Some(t) => " "@ + type_keyword(t),
            None => Seq::empty(),
        }),
        p.dimensions.len() == 0 ==> port_text(p) == direction_keyword(p.direction) + " "@ + p.name
            + (match p.port_type {
            Some(t) => " "@ + type_keyword(t),
            None => Seq::empty(),
        }),
{
    lemma_dims_text_flatten(p.dimensions);
    assert(p.dimensions.map_values(|d: SpecDimension| dimension_text(d)) =~= p.dimensions.map_values(
        |d: SpecDimension| "["@ + d.msb + ":"@ + d.lsb + "]"@,
    ));
    if p.dimensions.len() == 0 {
        assert(dims_text(p.dimensions) =~= Seq::<char>::empty());
    }
}

} // verus!
