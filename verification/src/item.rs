//! The items of a parsed program.

use vstd::prelude::*;

verus! {

/// The operand of an A-instruction.
#[derive(Debug, PartialEq, Eq)]
pub enum Operand {
    /// An unsigned decimal literal, kept as written.
    Constant(String),
    /// An identifier: a predefined name, a label or a variable.
    Symbol(String),
}

/// One item of a program, in source order.
#[derive(Debug, PartialEq, Eq)]
pub enum Item {
    /// `@operand`
    AInstruction(Operand),
    /// `dest=comp;jump`, where an empty `dest` or `jump` stands for a field
    /// that was left out.
    CInstruction { dest: String, comp: String, jump: String },
    /// `(name)`
    LabelDefinition(String),
    /// The end of the program: no pass looks at what follows it.
    EndOfInput,
}

/// What an [`Operand`] holds, as a mathematical value.
pub enum OperandView {
    Constant(Seq<char>),
    Symbol(Seq<char>),
}

/// What an [`Item`] holds, as a mathematical value.
pub enum ItemView {
    AInstruction(OperandView),
    CInstruction { dest: Seq<char>, comp: Seq<char>, jump: Seq<char> },
    LabelDefinition(Seq<char>),
    EndOfInput,
}

impl View for Operand {
    type V = OperandView;

    open spec fn view(&self) -> OperandView {
        match self {
            Operand::Constant(text) => OperandView::Constant(text@),
            Operand::Symbol(name) => OperandView::Symbol(name@),
        }
    }
}

impl View for Item {
    type V = ItemView;

    open spec fn view(&self) -> ItemView {
        match self {
            Item::AInstruction(operand) => ItemView::AInstruction(operand@),
            Item::CInstruction { dest, comp, jump } => ItemView::CInstruction {
                dest: dest@,
                comp: comp@,
                jump: jump@,
            },
            Item::LabelDefinition(name) => ItemView::LabelDefinition(name@),
            Item::EndOfInput => ItemView::EndOfInput,
        }
    }
}

impl Clone for Operand {
    fn clone(&self) -> (copy: Self)
        ensures
            copy@ == self@,
    {
        match self {
            Operand::Constant(text) => Operand::Constant(text.clone()),
            Operand::Symbol(name) => Operand::Symbol(name.clone()),
        }
    }
}

impl Clone for Item {
    fn clone(&self) -> (copy: Self)
        ensures
            copy@ == self@,
    {
        match self {
            Item::AInstruction(operand) => Item::AInstruction(operand.clone()),
            Item::CInstruction { dest, comp, jump } => Item::CInstruction {
                dest: dest.clone(),
                comp: comp.clone(),
                jump: jump.clone(),
            },
            Item::LabelDefinition(name) => Item::LabelDefinition(name.clone()),
            Item::EndOfInput => Item::EndOfInput,
        }
    }
}

impl DeepView for Item {
    type V = ItemView;

    open spec fn deep_view(&self) -> ItemView {
        self@
    }
}

impl ItemView {
    /// Whether the item is a real instruction: one that takes a place in the
    /// program memory and gives one line of output.
    pub open spec fn is_instruction(self) -> bool {
        self is AInstruction || self is CInstruction
    }
}

/// The number of real instructions among `items`.
pub open spec fn instruction_count(items: Seq<ItemView>) -> nat
    decreases items.len(),
{
    if items.len() == 0 {
        0
    } else {
        instruction_count(items.drop_last()) + if items.last().is_instruction() {
            1nat
        } else {
            0nat
        }
    }
}

} // verus!
