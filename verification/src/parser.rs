//! The line classifier and field extractor: turns raw source lines into a
//! sequence of classified instructions and exposes the per-kind field
//! accessors, tracking the program counter as it advances.

use vstd::prelude::*;
use vstd::string::*;

use crate::text::char_index;
use crate::text::find_char;
use crate::text::spec_strip_comment;
use crate::text::spec_trim;
use crate::text::strip_comment_slice;
use crate::text::trim_slice;

verus! {

/// The three instruction shapes of the instruction set.
#[derive(Clone, Copy, Debug, PartialEq, Eq, Structural)]
pub enum InstructionType {
    AInstruction,
    CInstruction,
    LInstruction,
}

/// A line's instruction text: its comment stripped, then trimmed.
pub open spec fn spec_clean(line: Seq<char>) -> Seq<char> {
    spec_trim(spec_strip_comment(line))
}

/// Classification: a leading `(` makes a label instruction, else a
/// leading `@` makes an address instruction, else the line is a compute
/// instruction.
pub open spec fn spec_kind(s: Seq<char>) -> InstructionType {
    if s.len() > 0 && s[0] == '(' {
        InstructionType::LInstruction
    } else if s.len() > 0 && s[0] == '@' {
        InstructionType::AInstruction
    } else {
        InstructionType::CInstruction
    }
}

/// Strips a line's comment and trims the rest.
pub fn clean_line(s: &str) -> (r: String)
    ensures
        r@ == spec_clean(s@),
{
    trim_slice(strip_comment_slice(s)).to_owned()
}

impl InstructionType {
    /// Whether `ins` begins with `@`.
    pub fn is_a_ins(ins: &str) -> (r: bool)
        ensures
            r == (ins@.len() > 0 && ins@[0] == '@'),
    {
        ins.unicode_len() > 0 && ins.get_char(0) == '@'
    }

    /// Whether `ins` is classified as a compute instruction.
    pub fn is_c_ins(ins: &str) -> (r: bool)
        ensures
            r == (spec_kind(ins@) == InstructionType::CInstruction),
    {
        !Self::is_a_ins(ins) && !Self::is_l_ins(ins)
    }

    /// Whether `ins` begins with `(`.
    pub fn is_l_ins(ins: &str) -> (r: bool)
        ensures
            r == (ins@.len() > 0 && ins@[0] == '('),
    {
        ins.unicode_len() > 0 && ins.get_char(0) == '('
    }

    /// Classifies an instruction text.
    pub fn get_type(ins: &str) -> (t: InstructionType)
        ensures
            t == spec_kind(ins@),
    {
        let mut t = InstructionType::CInstruction;
        if Self::is_a_ins(ins) {
            t = InstructionType::AInstruction;
        }
        if Self::is_l_ins(ins) {
            t = InstructionType::LInstruction;
        }
        t
    }
}

/// A classified, comment-stripped, trimmed instruction.
#[derive(Clone, Debug)]
pub struct Instruction {
    pub ins_type: InstructionType,
    pub ins_raw: String,
}

impl Instruction {
    /// The text is non-blank and the tag matches its classification.
    pub open spec fn wf(&self) -> bool {
        self.ins_raw@.len() > 0 && self.ins_type == spec_kind(self.ins_raw@)
    }
}

impl PartialEq for Instruction {
    fn eq(&self, other: &Instruction) -> (r: bool) {
        self.ins_type == other.ins_type && self.ins_raw == other.ins_raw
    }
}

impl vstd::std_specs::cmp::PartialEqSpecImpl for Instruction {
    open spec fn obeys_eq_spec() -> bool {
        true
    }

    open spec fn eq_spec(&self, other: &Instruction) -> bool {
        self.ins_type == other.ins_type && self.ins_raw@ == other.ins_raw@
    }
}

/// The symbol of an address instruction (the text after `@`) or of a
/// label instruction (the text between `(` and `)`).
pub open spec fn spec_symbol(s: Seq<char>) -> Seq<char> {
    if spec_kind(s) == InstructionType::AInstruction {
        s.skip(1)
    } else {
        s.subrange(1, s.len() - 1)
    }
}

/// The destination field: the text before the first `=`, or empty when
/// the instruction has no `=`.
pub open spec fn spec_dest_field(s: Seq<char>) -> Seq<char> {
    if char_index(s, '=') < s.len() {
        s.take(char_index(s, '='))
    } else {
        Seq::empty()
    }
}

/// The text after the first `=`, or the whole text when there is none.
pub open spec fn spec_after_eq(s: Seq<char>) -> Seq<char> {
    if char_index(s, '=') < s.len() {
        s.skip(char_index(s, '=') + 1)
    } else {
        s
    }
}

/// The computation field: the text after any `=` and before any `;`.
pub open spec fn spec_comp_field(s: Seq<char>) -> Seq<char> {
    let r = spec_after_eq(s);
    r.take(char_index(r, ';'))
}

/// The jump field: the text after the first `;` of the part after any
/// `=`, or empty when that part has no `;`.
pub open spec fn spec_jump_field(s: Seq<char>) -> Seq<char> {
    let r = spec_after_eq(s);
    if char_index(r, ';') < r.len() {
        r.skip(char_index(r, ';') + 1)
    } else {
        Seq::empty()
    }
}

/// The index of the first line at or after `i` whose cleaned text is
/// non-blank, or the line count when every remaining line is blank.
pub open spec fn next_sig(lines: Seq<Seq<char>>, i: int) -> int
    decreases lines.len() - i,
{
    if i < 0 || i >= lines.len() {
        lines.len() as int
    } else if spec_clean(lines[i]).len() > 0 {
        i
    } else {
        next_sig(lines, i + 1)
    }
}

pub proof fn lemma_next_sig(lines: Seq<Seq<char>>, i: int)
    requires
        0 <= i <= lines.len(),
    ensures
        i <= next_sig(lines, i) <= lines.len(),
        forall|k: int| i <= k < next_sig(lines, i) ==> spec_clean(lines[k]).len() == 0,
        next_sig(lines, i) < lines.len() ==> spec_clean(lines[next_sig(lines, i)]).len() > 0,
    decreases lines.len() - i,
{
    if i < lines.len() && spec_clean(lines[i]).len() == 0 {
        lemma_next_sig(lines, i + 1);
    }
}

/// The classifier: walks the source lines, skipping blank and comment
/// lines, and holds the most recently produced instruction together with
/// the program-counter value after it.
pub struct Parser {
    pub lines: Vec<String>,
    pub next_line_number: usize,
    pub next_ins_address: usize,
    pub current_instruction: Option<Instruction>,
}

impl Parser {
    /// The source lines as character sequences.
    pub open spec fn lines_view(&self) -> Seq<Seq<char>> {
        self.lines.deep_view()
    }

    /// The position is within the source and the program counter never
    /// exceeds it.
    pub open spec fn wf(&self) -> bool {
        &&& self.next_line_number <= self.lines_view().len()
        &&& self.next_ins_address <= self.next_line_number
    }

    /// How one `advance` call relates the new state to the old: it moves
    /// past the first non-blank line, producing that line's instruction
    /// and counting it unless it is a label; at end of input it changes
    /// nothing but the position.
    pub open spec fn advance_post(pre: Parser, post: Parser) -> bool {
        let l = pre.lines_view();
        let j = next_sig(l, pre.next_line_number as int);
        &&& post.lines_view() == l
        &&& if j < l.len() {
            let text = spec_clean(l[j]);
            &&& post.next_line_number == j + 1
            &&& post.current_instruction matches Some(ins) && ins.ins_raw@ == text && ins.ins_type
                == spec_kind(text)
            &&& post.next_ins_address == pre.next_ins_address + (
            if spec_kind(text) == InstructionType::LInstruction {
                0int
            } else {
                1int
            })
        } else {
            &&& post.next_line_number == l.len()
            &&& post.current_instruction == pre.current_instruction
            &&& post.next_ins_address == pre.next_ins_address
        }
    }

    /// A classifier at the start of the given source lines.
    pub fn new(lines: Vec<String>) -> (r: Parser)
        ensures
            r.lines_view() == lines.deep_view(),
            r.next_line_number == 0,
            r.next_ins_address == 0,
            r.current_instruction is None,
            r.wf(),
    {
        Parser { lines, next_line_number: 0, next_ins_address: 0, current_instruction: None }
    }

    /// Whether any source line is left to read.
    pub fn has_more_lines(&self) -> (r: bool)
        ensures
            r == (self.next_line_number < self.lines_view().len()),
    {
        self.next_line_number < self.lines.len()
    }

    /// Reads lines until one cleans to a non-blank text, classifies it as
    /// the current instruction, and counts it unless it is a label; at
    /// end of input it leaves the current instruction unchanged.
    pub fn advance(&mut self)
        requires
            old(self).wf(),
        ensures
            final(self).wf(),
            Parser::advance_post(*old(self), *final(self)),
    {
        loop
            invariant
                self.wf(),
                self.lines_view() == old(self).lines_view(),
                old(self).next_line_number <= self.next_line_number,
                next_sig(self.lines_view(), old(self).next_line_number as int) == next_sig(
                    self.lines_view(),
                    self.next_line_number as int,
                ),
                self.next_ins_address == old(self).next_ins_address,
                self.current_instruction == old(self).current_instruction,
            decreases self.lines_view().len() - self.next_line_number,
        {
            if !(self.next_line_number < self.lines.len()) {
                return ;
            }
            let ghost j = self.next_line_number as int;
            let cleaned = clean_line(self.lines[self.next_line_number].as_str());
            self.next_line_number = self.next_line_number + 1;
            if !cleaned.as_str().is_empty() {
                let t = InstructionType::get_type(cleaned.as_str());
                if t != InstructionType::LInstruction {
                    self.next_ins_address = self.next_ins_address + 1;
                }
                self.current_instruction = Some(Instruction { ins_type: t, ins_raw: cleaned });
                proof {
                    assert(next_sig(self.lines_view(), j) == j);
                }
                return ;
            }
        }
    }

    /// The symbol of the current address or label instruction.
    pub fn symbol(&self) -> (r: String)
        requires
            self.current_instruction matches Some(ins) && ins.wf() && ins.ins_type
                != InstructionType::CInstruction && (ins.ins_type == InstructionType::LInstruction
                ==> ins.ins_raw@.len() >= 2),
        ensures
            self.current_instruction matches Some(ins) && r@ == spec_symbol(ins.ins_raw@),
    {
        match &self.current_instruction {
            Some(ins) => {
                let raw = ins.ins_raw.as_str();
                let n = raw.unicode_len();
                match ins.ins_type {
                    InstructionType::AInstruction => raw.substring_char(1, n).to_owned(),
                    InstructionType::LInstruction => raw.substring_char(1, n - 1).to_owned(),
                    InstructionType::CInstruction => {
                        proof {
                            assert(false);
                        }
                        String::new()
                    },
                }
            },
            None => {
                proof {
                    assert(false);
                }
                String::new()
            },
        }
    }

    /// The destination field of the current compute instruction.
    pub fn dest(&self) -> (r: String)
        requires
            self.current_instruction matches Some(ins) && ins.ins_type
                == InstructionType::CInstruction,
        ensures
            self.current_instruction matches Some(ins) && r@ == spec_dest_field(ins.ins_raw@),
    {
        match &self.current_instruction {
            Some(ins) => {
                let raw = ins.ins_raw.as_str();
                match find_char(raw, '=') {
                    Some(i) => raw.substring_char(0, i).to_owned(),
                    None => String::new(),
                }
            },
            None => {
                proof {
                    assert(false);
                }
                String::new()
            },
        }
    }

    /// The computation field of the current compute instruction.
    pub fn comp(&self) -> (r: String)
        requires
            self.current_instruction matches Some(ins) && ins.ins_type
                == InstructionType::CInstruction,
        ensures
            self.current_instruction matches Some(ins) && r@ == spec_comp_field(ins.ins_raw@),
    {
        match &self.current_instruction {
            Some(ins) => {
                let raw = ins.ins_raw.as_str();
                let n = raw.unicode_len();
                let rest = match find_char(raw, '=') {
                    Some(i) => raw.substring_char(i + 1, n),
                    None => raw,
                };
                proof {
                    assert(rest@ =~= spec_after_eq(ins.ins_raw@));
                }
                let r = match find_char(rest, ';') {
                    Some(j) => rest.substring_char(0, j),
                    None => rest,
                };
                proof {
                    assert(r@ =~= spec_comp_field(ins.ins_raw@));
                }
                r.to_owned()
            },
            None => {
                proof {
                    assert(false);
                }
                String::new()
            },
        }
    }

    /// The jump field of the current compute instruction.
    pub fn jump(&self) -> (r: String)
        requires
            self.current_instruction matches Some(ins) && ins.ins_type
                == InstructionType::CInstruction,
        ensures
            self.current_instruction matches Some(ins) && r@ == spec_jump_field(ins.ins_raw@),
    {
        match &self.current_instruction {
            Some(ins) => {
                let raw = ins.ins_raw.as_str();
                let n = raw.unicode_len();
                let rest = match find_char(raw, '=') {
                    Some(i) => raw.substring_char(i + 1, n),
                    None => raw,
                };
                proof {
                    assert(rest@ =~= spec_after_eq(ins.ins_raw@));
                }
                let m = rest.unicode_len();
                match find_char(rest, ';') {
                    Some(j) => rest.substring_char(j + 1, m).to_owned(),
                    None => String::new(),
                }
            },
            None => {
                proof {
                    assert(false);
                }
                String::new()
            },
        }
    }
}

} // verus!
