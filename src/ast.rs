//! The tree a generator script compiles to, and its mathematical view.
use vstd::prelude::*;

verus! {

/// Type of one input variable. `Word` and `String` carry a maximum length,
/// held by the variable itself.
#[derive(Clone, Copy, Debug, PartialEq, Eq, Structural)]
pub enum VarType {
    Int,
    Float,
    Long,
    Bool,
    Word,
    String,
}

/// One `ident:type` entry of a read line.
#[derive(Clone, Debug)]
pub struct VariableCommand {
    pub ident: String,
    pub var_type: VarType,
    /// Literal number or identifier; present for `Word` and `String` only.
    pub max_length: Option<String>,
    /// Set by an `INPUT` block; empty until then.
    pub input_comment: String,
}

/// One piece of a `join(...)` output line.
#[derive(Clone, Debug)]
pub enum JoinTerm {
    Literal(String),
    Variable(String),
}

/// Groups adjacent read lines into one node. Its tail view is the position of
/// the node in the command list that owns it: the view covers every command
/// from there to the end.
#[derive(Clone, Debug)]
pub struct ReadBatch {
    pub read_lines: Vec<Vec<VariableCommand>>,
    pub tail_start: Option<usize>,
}

/// Nodes that a rewrite of the tree introduces and the grammar cannot express.
#[derive(Clone, Debug)]
pub enum ExternalNode {
    ReadBatch(ReadBatch),
}

#[derive(Debug)]
pub enum Cmd {
    Read(Vec<VariableCommand>),
    Write { lines: Vec<String>, output_comment: String },
    WriteJoin { join_terms: Vec<JoinTerm>, output_comment: String },
    Loop { count_var: String, command: Box<Cmd> },
    LoopLine { count_var: String, variables: Vec<VariableCommand> },
    External(ExternalNode),
}

/// A compiled generator script.
#[derive(Debug)]
pub struct Stub {
    pub commands: Vec<Cmd>,
    pub statement: String,
}

pub struct VarV {
    pub ident: Seq<char>,
    pub var_type: VarType,
    pub max_length: Option<Seq<char>>,
    pub input_comment: Seq<char>,
}

pub enum TermV {
    Literal(Seq<char>),
    Variable(Seq<char>),
}

pub enum CmdV {
    Read(Seq<VarV>),
    Write { lines: Seq<Seq<char>>, output_comment: Seq<char> },
    WriteJoin { terms: Seq<TermV>, output_comment: Seq<char> },
    Loop { count_var: Seq<char>, command: Box<CmdV> },
    LoopLine { count_var: Seq<char>, variables: Seq<VarV> },
    ReadBatch { read_lines: Seq<Seq<VarV>>, tail_start: Option<nat> },
}

pub struct StubV {
    pub commands: Seq<CmdV>,
    pub statement: Seq<char>,
}

impl View for VariableCommand {
    type V = VarV;

    open spec fn view(&self) -> VarV {
        VarV {
            ident: self.ident@,
            var_type: self.var_type,
            max_length: match self.max_length {
                Some(m) => Some(m@),
                None => None,
            },
            input_comment: self.input_comment@,
        }
    }
}

impl View for JoinTerm {
    type V = TermV;

    open spec fn view(&self) -> TermV {
        match self {
            JoinTerm::Literal(t) => TermV::Literal(t@),
            JoinTerm::Variable(t) => TermV::Variable(t@),
        }
    }
}

pub open spec fn vars_view(v: Seq<VariableCommand>) -> Seq<VarV> {
    v.map_values(|x: VariableCommand| x@)
}

pub open spec fn strings_view(v: Seq<String>) -> Seq<Seq<char>> {
    v.map_values(|x: String| x@)
}

pub open spec fn terms_view(v: Seq<JoinTerm>) -> Seq<TermV> {
    v.map_values(|x: JoinTerm| x@)
}

pub open spec fn read_lines_view(v: Seq<Vec<VariableCommand>>) -> Seq<Seq<VarV>> {
    v.map_values(|x: Vec<VariableCommand>| vars_view(x@))
}

pub open spec fn cmd_view(c: Cmd) -> CmdV
    decreases c,
{
    match c {
        Cmd::Read(v) => CmdV::Read(vars_view(v@)),
        Cmd::Write { lines, output_comment } => CmdV::Write {
            lines: strings_view(lines@),
            output_comment: output_comment@,
        },
        Cmd::WriteJoin { join_terms, output_comment } => CmdV::WriteJoin {
            terms: terms_view(join_terms@),
            output_comment: output_comment@,
        },
        Cmd::Loop { count_var, command } => CmdV::Loop {
            count_var: count_var@,
            command: Box::new(cmd_view(*command)),
        },
        Cmd::LoopLine { count_var, variables } => CmdV::LoopLine {
            count_var: count_var@,
            variables: vars_view(variables@),
        },
        Cmd::External(ExternalNode::ReadBatch(b)) => CmdV::ReadBatch {
            read_lines: read_lines_view(b.read_lines@),
            tail_start: match b.tail_start {
                Some(i) => Some(i as nat),
                None => None,
            },
        },
    }
}

impl View for Cmd {
    type V = CmdV;

    open spec fn view(&self) -> CmdV {
        cmd_view(*self)
    }
}

pub open spec fn cmds_view(v: Seq<Cmd>) -> Seq<CmdV> {
    v.map_values(|x: Cmd| x@)
}

impl View for Stub {
    type V = StubV;

    open spec fn view(&self) -> StubV {
        StubV { commands: cmds_view(self.commands@), statement: self.statement@ }
    }
}

} // verus!
