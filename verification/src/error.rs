//! What can go wrong while a program is assembled.

use vstd::prelude::*;
use vstd::string::StringExecFns;

verus! {

/// A fatal error of the assembler. Lines count from 1, operands from 0.
#[derive(PartialEq, Eq, Debug)]
pub enum AsmError {
    /// A line starts with `.` and is no known directive.
    UndefinedDirective { line: usize },
    /// The value of a data directive is no integer literal.
    InvalidInteger { text: Vec<char>, line: usize, arg: usize },
    /// A data directive names something that is already defined.
    RedefinedVariable { line: usize },
    /// A label names something that is already defined.
    RedefinedLabel { line: usize },
    /// A directive or an instruction lacks an operand.
    MissingArgument { line: usize, arg: usize },
    /// An operand is no register, variable, label or integer literal.
    Unresolved { text: Vec<char>, line: usize, arg: usize },
    /// A line names an instruction that does not exist.
    UndefinedInstruction { line: usize },
    /// A file that the program includes could not be read.
    MissingInclude { name: Vec<char> },
}

/// An assembler error as mathematics.
pub enum Fault {
    UndefinedDirective { line: int },
    InvalidInteger { text: Seq<char>, line: int, arg: int },
    RedefinedVariable { line: int },
    RedefinedLabel { line: int },
    MissingArgument { line: int, arg: int },
    Unresolved { text: Seq<char>, line: int, arg: int },
    UndefinedInstruction { line: int },
    MissingInclude { name: Seq<char> },
}

impl View for AsmError {
    type V = Fault;

    open spec fn view(&self) -> Fault {
        match *self {
            AsmError::UndefinedDirective { line } => Fault::UndefinedDirective {
                line: line as int,
            },
            AsmError::InvalidInteger { text, line, arg } => Fault::InvalidInteger {
                text: text@,
                line: line as int,
                arg: arg as int,
            },
            AsmError::RedefinedVariable { line } => Fault::RedefinedVariable {
                line: line as int,
            },
            AsmError::RedefinedLabel { line } => Fault::RedefinedLabel { line: line as int },
            AsmError::MissingArgument { line, arg } => Fault::MissingArgument {
                line: line as int,
                arg: arg as int,
            },
            AsmError::Unresolved { text, line, arg } => Fault::Unresolved {
                text: text@,
                line: line as int,
                arg: arg as int,
            },
            AsmError::UndefinedInstruction { line } => Fault::UndefinedInstruction {
                line: line as int,
            },
            AsmError::MissingInclude { name } => Fault::MissingInclude { name: name@ },
        }
    }
}

/// `String::push` of the standard library: appends one character to the end
/// of the string.
pub assume_specification[ String::push ](s: &mut String, ch: char)
    ensures
        final(s)@ == old(s)@.push(ch),
;

/// The character of a decimal digit.
pub open spec fn digit_char(d: int) -> char {
    (d + 48) as char
}

/// A natural number in decimal, without leading zeros.
pub open spec fn decimal(n: nat) -> Seq<char>
    decreases n,
{
    if n < 10 {
        seq![digit_char(n as int)]
    } else {
        decimal(n / 10).push(digit_char((n % 10) as int))
    }
}

impl Fault {
    /// The error as a message for the user.
    pub open spec fn text(self) -> Seq<char> {
        match self {
            Fault::UndefinedDirective { line } => "Undefined directive"@ + " (l "@ + decimal(
                line as nat,
            ) + ")"@,
            Fault::InvalidInteger { text, line, arg } => "Invalid integer "@ + text + " (l "@
                + decimal(line as nat) + ", a "@ + decimal(arg as nat) + ")"@,
            Fault::RedefinedVariable { line } => "Redefined variable"@ + " (l "@ + decimal(
                line as nat,
            ) + ")"@,
            Fault::RedefinedLabel { line } => "Redefined label"@ + " (l "@ + decimal(
                line as nat,
            ) + ")"@,
            Fault::MissingArgument { line, arg } => "Expected an argument"@ + " (l "@ + decimal(
                line as nat,
            ) + ", a "@ + decimal(arg as nat) + ")"@,
            Fault::Unresolved { text, line, arg } =>
                "Expected defined variable or address, got "@ + text + " (l "@ + decimal(
                    line as nat,
                ) + ", a "@ + decimal(arg as nat) + ")"@,
            Fault::UndefinedInstruction { line } => "Undefined instruction"@ + " (l "@ + decimal(
                line as nat,
            ) + ")"@,
            Fault::MissingInclude { name } => "Could not include "@ + name,
        }
    }
}

/// Appends a number in decimal.
pub fn push_decimal(s: &mut String, n: usize)
    ensures
        final(s)@ == old(s)@ + decimal(n as nat),
    decreases n,
{
    if n >= 10 {
        push_decimal(s, n / 10);
    }
    let d: u8 = (n % 10) as u8;
    let c: char = (48u8 + d) as char;
    s.push(c);
    assert(c == digit_char((n % 10) as int));
    assert(final(s)@ =~= old(s)@ + decimal(n as nat));
}

/// Appends the characters of a text.
pub fn push_text(s: &mut String, text: &Vec<char>)
    ensures
        final(s)@ == old(s)@ + text@,
{
    let mut i: usize = 0;
    while i < text.len()
        invariant
            i <= text.len(),
            s@ == old(s)@ + text@.take(i as int),
        decreases text.len() - i,
    {
        s.push(text[i]);
        assert(text@.take(i + 1) =~= text@.take(i as int).push(text@[i as int]));
        assert(s@ =~= old(s)@ + text@.take(i + 1));
        i += 1;
    }
    assert(text@.take(text.len() as int) =~= text@);
}

/// Appends ` (l <line>)`.
fn push_line(s: &mut String, line: usize)
    ensures
        final(s)@ == old(s)@ + " (l "@ + decimal(line as nat) + ")"@,
{
    s.append(" (l ");
    push_decimal(s, line);
    s.append(")");
}

/// Appends ` (l <line>, a <arg>)`.
fn push_place(s: &mut String, line: usize, arg: usize)
    ensures
        final(s)@ == old(s)@ + " (l "@ + decimal(line as nat) + ", a "@ + decimal(arg as nat)
            + ")"@,
{
    s.append(" (l ");
    push_decimal(s, line);
    s.append(", a ");
    push_decimal(s, arg);
    s.append(")");
}

impl AsmError {
    /// The error as a message for the user.
    pub fn message(&self) -> (s: String)
        ensures
            s@ == self@.text(),
    {
        match self {
            AsmError::UndefinedDirective { line } => {
                let mut s = String::from_str("Undefined directive");
                push_line(&mut s, *line);
                assert(s@ =~= self@.text());
                s
            },
            AsmError::InvalidInteger { text, line, arg } => {
                let mut s = String::from_str("Invalid integer ");
                push_text(&mut s, text);
                push_place(&mut s, *line, *arg);
                assert(s@ =~= self@.text());
                s
            },
            AsmError::RedefinedVariable { line } => {
                let mut s = String::from_str("Redefined variable");
                push_line(&mut s, *line);
                assert(s@ =~= self@.text());
                s
            },
            AsmError::RedefinedLabel { line } => {
                let mut s = String::from_str("Redefined label");
                push_line(&mut s, *line);
                assert(s@ =~= self@.text());
                s
            },
            AsmError::MissingArgument { line, arg } => {
                let mut s = String::from_str("Expected an argument");
                push_place(&mut s, *line, *arg);
                assert(s@ =~= self@.text());
                s
            },
            AsmError::Unresolved { text, line, arg } => {
                let mut s = String::from_str("Expected defined variable or address, got ");
                push_text(&mut s, text);
                push_place(&mut s, *line, *arg);
                assert(s@ =~= self@.text());
                s
            },
            AsmError::UndefinedInstruction { line } => {
                let mut s = String::from_str("Undefined instruction");
                push_line(&mut s, *line);
                assert(s@ =~= self@.text());
                s
            },
            AsmError::MissingInclude { name } => {
                let mut s = String::from_str("Could not include ");
                push_text(&mut s, name);
                s
            },
        }
    }
}

} // verus!
