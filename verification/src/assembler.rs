//! The two-pass driver: a first pass binds every label to the program
//! counter of the instruction after it, a second pass encodes every address
//! and compute instruction into a 16-character binary line, allocating RAM
//! slots from 16 upward for symbolic variables.

use vstd::prelude::*;
use vstd::string::*;

use crate::code::bin16;
use crate::code::spec_bin16;
use crate::code::spec_comp_code;
use crate::code::spec_dest_code;
use crate::code::spec_dest_valid;
use crate::code::spec_jump_code;
use crate::code::Code;
use crate::parser::spec_clean;
use crate::parser::spec_comp_field;
use crate::parser::spec_dest_field;
use crate::parser::spec_jump_field;
use crate::parser::spec_kind;
use crate::parser::spec_symbol;
use crate::parser::next_sig;
use crate::parser::lemma_next_sig;
use crate::parser::InstructionType;
use crate::parser::Parser;
use crate::symbol_table::spec_initial_table;
use crate::symbol_table::SymbolTable;
use crate::text::clone_lines;
use crate::text::dec_value;
use crate::text::is_dec;
use crate::text::lemma_split_lines_count;
use crate::text::parse_dec;
use crate::text::spec_split_lines;
use crate::text::split_lines;

verus! {

/// Why a translation was rejected: a label instruction too short to hold
/// a symbol, or a mnemonic outside the closed instruction set.
#[derive(Clone, Copy, Debug, PartialEq, Eq, Structural)]
pub enum AsmError {
    MalformedLabel,
    UnknownDest,
    UnknownComp,
    UnknownJump,
}

/// The instruction texts of a source: each line cleaned, blank results
/// dropped.
pub open spec fn spec_instructions(lines: Seq<Seq<char>>) -> Seq<Seq<char>>
    decreases lines.len(),
{
    if lines.len() == 0 {
        Seq::empty()
    } else {
        let rest = spec_instructions(lines.drop_last());
        let text = spec_clean(lines.last());
        if text.len() > 0 {
            rest.push(text)
        } else {
            rest
        }
    }
}

/// The first pass over the instruction texts: labels bind their symbol to
/// the current program counter unless the symbol is already bound; every
/// other instruction advances the counter by one.
pub open spec fn spec_pass1(instrs: Seq<Seq<char>>) -> Result<(Map<Seq<char>, nat>, nat), AsmError>
    decreases instrs.len(),
{
    if instrs.len() == 0 {
        Ok((spec_initial_table(), 0))
    } else {
        match spec_pass1(instrs.drop_last()) {
            Err(e) => Err(e),
            Ok((t, pc)) => {
                let s = instrs.last();
                if spec_kind(s) == InstructionType::LInstruction {
                    if s.len() < 2 {
                        Err(AsmError::MalformedLabel)
                    } else {
                        let sym = spec_symbol(s);
                        if t.contains_key(sym) {
                            Ok((t, pc))
                        } else {
                            Ok((t.insert(sym, pc), pc))
                        }
                    }
                } else {
                    Ok((t, pc + 1))
                }
            },
        }
    }
}

/// The 16 bits of a compute instruction, or the error naming its first
/// unrecognized field; the computation is checked first, then the
/// destination, then the jump.
pub open spec fn spec_encode_c(s: Seq<char>) -> Result<Seq<char>, AsmError> {
    match spec_comp_code(spec_comp_field(s)) {
        None => Err(AsmError::UnknownComp),
        Some(c) => {
            if !spec_dest_valid(spec_dest_field(s)) {
                Err(AsmError::UnknownDest)
            } else {
                match spec_jump_code(spec_jump_field(s)) {
                    None => Err(AsmError::UnknownJump),
                    Some(j) => Ok("111"@ + c + spec_dest_code(spec_dest_field(s)) + j),
                }
            }
        },
    }
}

/// The second pass over the instruction texts, starting from the symbol
/// table `t0` and the allocation cursor `a0`: an address instruction
/// encodes its numeral directly, or its bound address, or a freshly
/// allocated slot; a compute instruction encodes its three fields; a
/// label emits nothing.
pub open spec fn spec_pass2(instrs: Seq<Seq<char>>, t0: Map<Seq<char>, nat>, a0: nat) -> Result<
    (Map<Seq<char>, nat>, nat, Seq<Seq<char>>),
    AsmError,
>
    decreases instrs.len(),
{
    if instrs.len() == 0 {
        Ok((t0, a0, Seq::empty()))
    } else {
        match spec_pass2(instrs.drop_last(), t0, a0) {
            Err(e) => Err(e),
            Ok((t, a, out)) => {
                let s = instrs.last();
                match spec_kind(s) {
                    InstructionType::AInstruction => {
                        let sym = spec_symbol(s);
                        if is_dec(sym) && dec_value(sym) <= usize::MAX {
                            Ok((t, a, out.push(spec_bin16(dec_value(sym)))))
                        } else if t.contains_key(sym) {
                            Ok((t, a, out.push(spec_bin16(t[sym]))))
                        } else {
                            Ok((t.insert(sym, a), a + 1, out.push(spec_bin16(a))))
                        }
                    },
                    InstructionType::CInstruction => match spec_encode_c(s) {
                        Err(e) => Err(e),
                        Ok(line) => Ok((t, a, out.push(line))),
                    },
                    InstructionType::LInstruction => Ok((t, a, out)),
                }
            },
        }
    }
}

/// The whole translation: the lines a source's instruction texts encode
/// to, in order, or the error on which the translation stops.
pub open spec fn spec_assemble(lines: Seq<Seq<char>>) -> Result<Seq<Seq<char>>, AsmError> {
    let instrs = spec_instructions(lines);
    match spec_pass1(instrs) {
        Err(e) => Err(e),
        Ok((t, _pc)) => match spec_pass2(instrs, t, 16) {
            Err(e) => Err(e),
            Ok((_t, _a, out)) => Ok(out),
        },
    }
}

/// An assembly result, with the output lines as character sequences.
pub open spec fn spec_output_view(r: Result<Vec<String>, AsmError>) -> Result<
    Seq<Seq<char>>,
    AsmError,
> {
    match r {
        Ok(v) => Ok(v.deep_view()),
        Err(e) => Err(e),
    }
}

/// The instruction texts of two sources in sequence are the instruction
/// texts of the one followed by those of the other.
pub proof fn lemma_instructions_add(a: Seq<Seq<char>>, b: Seq<Seq<char>>)
    ensures
        spec_instructions(a + b) == spec_instructions(a) + spec_instructions(b),
    decreases b.len(),
{
    if b.len() == 0 {
        assert(a + b =~= a);
        assert(spec_instructions(a) + spec_instructions(b) =~= spec_instructions(a));
    } else {
        lemma_instructions_add(a, b.drop_last());
        assert((a + b).drop_last() =~= a + b.drop_last());
        assert((a + b).last() == b.last());
        let text = spec_clean(b.last());
        if text.len() > 0 {
            assert((spec_instructions(a) + spec_instructions(b.drop_last())).push(text)
                =~= spec_instructions(a) + spec_instructions(b.drop_last()).push(text));
        }
    }
}

/// Lines that clean to blank contribute no instruction texts.
pub proof fn lemma_instructions_skip_blanks(l: Seq<Seq<char>>, i: int, j: int)
    requires
        0 <= i <= j <= l.len(),
        forall|k: int| i <= k < j ==> spec_clean(l[k]).len() == 0,
    ensures
        spec_instructions(l.take(j)) == spec_instructions(l.take(i)),
    decreases j - i,
{
    if i < j {
        lemma_instructions_skip_blanks(l, i, j - 1);
        assert(l.take(j).drop_last() =~= l.take(j - 1));
        assert(l.take(j).last() == l[j - 1]);
    }
}

/// One more line with a non-blank text appends that text to the
/// instruction texts.
pub proof fn lemma_instructions_take_sig(l: Seq<Seq<char>>, j: int)
    requires
        0 <= j < l.len(),
        spec_clean(l[j]).len() > 0,
    ensures
        spec_instructions(l.take(j + 1)) == spec_instructions(l.take(j)).push(spec_clean(l[j])),
{
    assert(l.take(j + 1).drop_last() =~= l.take(j));
    assert(l.take(j + 1).last() == l[j]);
}

/// Once the first pass has failed, no further instructions change the
/// outcome.
pub proof fn lemma_pass1_err_extend(a: Seq<Seq<char>>, b: Seq<Seq<char>>)
    requires
        spec_pass1(a) is Err,
    ensures
        spec_pass1(a + b) == spec_pass1(a),
    decreases b.len(),
{
    if b.len() == 0 {
        assert(a + b =~= a);
    } else {
        lemma_pass1_err_extend(a, b.drop_last());
        assert((a + b).drop_last() =~= a + b.drop_last());
    }
}

/// Once the second pass has failed, no further instructions change the
/// outcome.
pub proof fn lemma_pass2_err_extend(
    a: Seq<Seq<char>>,
    b: Seq<Seq<char>>,
    t0: Map<Seq<char>, nat>,
    a0: nat,
)
    requires
        spec_pass2(a, t0, a0) is Err,
    ensures
        spec_pass2(a + b, t0, a0) == spec_pass2(a, t0, a0),
    decreases b.len(),
{
    if b.len() == 0 {
        assert(a + b =~= a);
    } else {
        lemma_pass2_err_extend(a, b.drop_last(), t0, a0);
        assert((a + b).drop_last() =~= a + b.drop_last());
    }
}

/// The number of address and compute instructions among the texts: what
/// the program counter has reached after them.
pub open spec fn spec_code_count(instrs: Seq<Seq<char>>) -> nat
    decreases instrs.len(),
{
    if instrs.len() == 0 {
        0
    } else {
        spec_code_count(instrs.drop_last()) + (
        if spec_kind(instrs.last()) == InstructionType::LInstruction {
            0nat
        } else {
            1nat
        })
    }
}

/// A successful first pass leaves the program counter at the number of
/// address and compute instructions it has passed.
pub proof fn lemma_pass1_pc(instrs: Seq<Seq<char>>)
    requires
        spec_pass1(instrs) is Ok,
    ensures
        spec_pass1(instrs)->Ok_0.1 == spec_code_count(instrs),
    decreases instrs.len(),
{
    if instrs.len() > 0 {
        lemma_pass1_pc(instrs.drop_last());
    }
}

/// A name that is neither pre-seeded nor the symbol of any label stays
/// unbound through the first pass.
pub proof fn lemma_pass1_not_bound(instrs: Seq<Seq<char>>, k: Seq<char>)
    requires
        spec_pass1(instrs) is Ok,
        !spec_initial_table().contains_key(k),
        forall|i: int|
            0 <= i < instrs.len() && spec_kind(instrs[i]) == InstructionType::LInstruction
                ==> spec_symbol(instrs[i]) != k,
    ensures
        !spec_pass1(instrs)->Ok_0.0.contains_key(k),
    decreases instrs.len(),
{
    if instrs.len() > 0 {
        assert(forall|i: int|
            0 <= i < instrs.drop_last().len() && spec_kind(instrs.drop_last()[i])
                == InstructionType::LInstruction ==> spec_symbol(instrs.drop_last()[i]) != k);
        lemma_pass1_not_bound(instrs.drop_last(), k);
        if spec_kind(instrs.last()) == InstructionType::LInstruction {
            assert(instrs[instrs.len() - 1] == instrs.last());
        }
    }
}

/// A label binds its symbol to the program counter of the next real
/// instruction: the number of address and compute instructions before the
/// label, whether its uses come before or after it.
pub proof fn lemma_label_resolution(instrs: Seq<Seq<char>>, i: int)
    requires
        spec_pass1(instrs) is Ok,
        0 <= i < instrs.len(),
        spec_kind(instrs[i]) == InstructionType::LInstruction,
        !spec_initial_table().contains_key(spec_symbol(instrs[i])),
        forall|k: int|
            0 <= k < i && spec_kind(instrs[k]) == InstructionType::LInstruction ==> spec_symbol(
                instrs[k],
            ) != spec_symbol(instrs[i]),
    ensures
        spec_pass1(instrs)->Ok_0.0.contains_key(spec_symbol(instrs[i])),
        spec_pass1(instrs)->Ok_0.0[spec_symbol(instrs[i])] == spec_code_count(instrs.take(i)),
    decreases instrs.len(),
{
    let sym = spec_symbol(instrs[i]);
    let prefix = instrs.drop_last();
    assert(spec_pass1(prefix) is Ok);
    if i == instrs.len() - 1 {
        assert(instrs.last() == instrs[i]);
        assert(forall|k: int|
            0 <= k < prefix.len() && spec_kind(prefix[k]) == InstructionType::LInstruction
                ==> spec_symbol(prefix[k]) != sym);
        lemma_pass1_not_bound(prefix, sym);
        lemma_pass1_pc(prefix);
        assert(instrs.take(i) =~= prefix);
    } else {
        assert(prefix[i] == instrs[i]);
        assert(forall|k: int|
            0 <= k < i && spec_kind(prefix[k]) == InstructionType::LInstruction ==> spec_symbol(
                prefix[k],
            ) != sym);
        lemma_label_resolution(prefix, i);
        assert(prefix.take(i) =~= instrs.take(i));
        assert(instrs.last() == instrs[instrs.len() - 1]);
    }
}

/// A blank line, or one holding only a comment, contributes no output
/// line and moves no program-counter or label address: inserting it
/// anywhere leaves the whole translation unchanged.
pub proof fn lemma_blank_line_ignored(lines: Seq<Seq<char>>, i: int, b: Seq<char>)
    requires
        0 <= i <= lines.len(),
        spec_clean(b).len() == 0,
    ensures
        spec_assemble(lines.insert(i, b)) == spec_assemble(lines),
{
    let w = lines.insert(i, b);
    lemma_seq_push_parts(lines.take(i), b);
    assert(spec_instructions(lines.take(i).push(b)) == spec_instructions(lines.take(i)));
    lemma_instructions_add(lines.take(i).push(b), lines.skip(i));
    lemma_instructions_add(lines.take(i), lines.skip(i));
    assert(w =~= lines.take(i).push(b) + lines.skip(i));
    assert(lines.take(i) + lines.skip(i) =~= lines);
    assert(spec_instructions(w) == spec_instructions(lines));
}

/// A numeric address instruction is encoded directly from its numeral: it
/// binds no symbol and leaves the allocation cursor where it was.
pub proof fn lemma_numeric_address_allocates_nothing(
    instrs: Seq<Seq<char>>,
    t0: Map<Seq<char>, nat>,
    a0: nat,
    s: Seq<char>,
)
    requires
        spec_kind(s) == InstructionType::AInstruction,
        is_dec(spec_symbol(s)),
        dec_value(spec_symbol(s)) <= usize::MAX,
    ensures
        spec_pass2(instrs.push(s), t0, a0) == (match spec_pass2(instrs, t0, a0) {
            Ok((t, a, out)) => Ok::<_, AsmError>(
                (t, a, out.push(spec_bin16(dec_value(spec_symbol(s))))),
            ),
            Err(e) => Err(e),
        }),
{
    lemma_seq_push_parts(instrs, s);
}

/// The translation is a function of the source text alone: two runs over
/// the same lines return the same lines or the same error.
pub proof fn lemma_translation_deterministic(
    lines: Seq<Seq<char>>,
    r1: Result<Seq<Seq<char>>, AsmError>,
    r2: Result<Seq<Seq<char>>, AsmError>,
)
    requires
        r1 == spec_assemble(lines),
        r2 == spec_assemble(lines),
    ensures
        r1 == r2,
{
}

proof fn lemma_seq_push_parts(s: Seq<Seq<char>>, x: Seq<char>)
    ensures
        s.push(x).drop_last() == s,
        s.push(x).last() == x,
        s.push(x).len() == s.len() + 1,
{
    assert(s.push(x).drop_last() =~= s);
}

/// Translates assembly source lines into their binary lines, or stops on
/// the first malformed label or unknown mnemonic.
pub fn assemble(lines: &Vec<String>) -> (r: Result<Vec<String>, AsmError>)
    requires
        lines@.len() <= usize::MAX - 16,
    ensures
        spec_output_view(r) == spec_assemble(lines.deep_view()),
{
    let ghost l = lines.deep_view();
    let mut symbol_table = SymbolTable::new();

    // First pass: collect the label bindings.
    let mut parser = Parser::new(clone_lines(lines));
    while parser.has_more_lines()
        invariant
            parser.wf(),
            parser.lines_view() == l,
            l == lines.deep_view(),
            symbol_table.wf(),
            symbol_table.alloc_pos == 16,
            spec_pass1(spec_instructions(l.take(parser.next_line_number as int))) == Ok::<
                _,
                AsmError,
            >((symbol_table@, parser.next_ins_address as nat)),
        decreases l.len() - parser.next_line_number,
    {
        let ghost p0 = parser.next_line_number as int;
        let ghost j = next_sig(l, p0);
        parser.current_instruction = None;
        parser.advance();
        proof {
            lemma_next_sig(l, p0);
            if j < l.len() {
                lemma_instructions_skip_blanks(l, p0, j);
                lemma_instructions_take_sig(l, j);
                lemma_seq_push_parts(
                    spec_instructions(l.take(j)),
                    spec_clean(l[j]),
                );
            } else {
                lemma_instructions_skip_blanks(l, p0, l.len() as int);
            }
        }
        match &parser.current_instruction {
            Some(ins) => {
                if ins.ins_type == InstructionType::LInstruction {
                    let n = ins.ins_raw.as_str().unicode_len();
                    if n < 2 {
                        proof {
                            lemma_instructions_add(l.take(j + 1), l.skip(j + 1));
                            assert(l.take(j + 1) + l.skip(j + 1) =~= l);
                            lemma_pass1_err_extend(
                                spec_instructions(l.take(j + 1)),
                                spec_instructions(l.skip(j + 1)),
                            );
                        }
                        return Err(AsmError::MalformedLabel);
                    }
                    let sym = parser.symbol();
                    if !symbol_table.contains(sym.as_str()) {
                        symbol_table.add_entry(sym.as_str(), parser.next_ins_address);
                    }
                }
            },
            None => {},
        }
    }
    proof {
        assert(l.take(l.len() as int) =~= l);
    }
    let ghost t1 = symbol_table@;
    let ghost pc1 = parser.next_ins_address as nat;

    // Second pass: encode, resolving and allocating symbols.
    let mut parser = Parser::new(clone_lines(lines));
    let mut out: Vec<String> = Vec::new();
    proof {
        assert(l.take(0) =~= Seq::<Seq<char>>::empty());
        assert(out.deep_view() =~= Seq::<Seq<char>>::empty());
    }
    while parser.has_more_lines()
        invariant
            parser.wf(),
            parser.lines_view() == l,
            l == lines.deep_view(),
            l.len() <= usize::MAX - 16,
            symbol_table.wf(),
            symbol_table.alloc_pos <= 16 + parser.next_line_number,
            spec_pass1(spec_instructions(l)) == Ok::<_, AsmError>((t1, pc1)),
            spec_pass2(spec_instructions(l.take(parser.next_line_number as int)), t1, 16) == Ok::<
                _,
                AsmError,
            >((symbol_table@, symbol_table.alloc_pos as nat, out.deep_view())),
        decreases l.len() - parser.next_line_number,
    {
        let ghost p0 = parser.next_line_number as int;
        let ghost j = next_sig(l, p0);
        parser.current_instruction = None;
        parser.advance();
        proof {
            lemma_next_sig(l, p0);
            if j < l.len() {
                lemma_instructions_skip_blanks(l, p0, j);
                lemma_instructions_take_sig(l, j);
                lemma_seq_push_parts(
                    spec_instructions(l.take(j)),
                    spec_clean(l[j]),
                );
            } else {
                lemma_instructions_skip_blanks(l, p0, l.len() as int);
            }
        }
        match &parser.current_instruction {
            Some(ins) => {
                match ins.ins_type {
                    InstructionType::AInstruction => {
                        let sym = parser.symbol();
                        let line = match parse_dec(sym.as_str()) {
                            Some(v) => bin16(v),
                            None => {
                                if symbol_table.contains(sym.as_str()) {
                                    bin16(symbol_table.get_address(sym.as_str()))
                                } else {
                                    let a = symbol_table.alloc_pos;
                                    symbol_table.add_entry(sym.as_str(), a);
                                    symbol_table.alloc_pos = a + 1;
                                    bin16(a)
                                }
                            },
                        };
                        let ghost pre_out = out.deep_view();
                        out.push(line);
                        proof {
                            assert(out.deep_view() =~= pre_out.push(line@));
                        }
                    },
                    InstructionType::CInstruction => {
                        let comp_text = parser.comp();
                        let comp_bits = match Code::try_comp(comp_text.as_str()) {
                            Some(c) => c,
                            None => {
                                proof {
                                    lemma_instructions_add(l.take(j + 1), l.skip(j + 1));
                                    assert(l.take(j + 1) + l.skip(j + 1) =~= l);
                                    lemma_pass2_err_extend(
                                        spec_instructions(l.take(j + 1)),
                                        spec_instructions(l.skip(j + 1)),
                                        t1,
                                        16,
                                    );
                                }
                                return Err(AsmError::UnknownComp);
                            },
                        };
                        let dest_text = parser.dest();
                        let dest_bits = match Code::try_dest(dest_text.as_str()) {
                            Some(d) => d,
                            None => {
                                proof {
                                    lemma_instructions_add(l.take(j + 1), l.skip(j + 1));
                                    assert(l.take(j + 1) + l.skip(j + 1) =~= l);
                                    lemma_pass2_err_extend(
                                        spec_instructions(l.take(j + 1)),
                                        spec_instructions(l.skip(j + 1)),
                                        t1,
                                        16,
                                    );
                                }
                                return Err(AsmError::UnknownDest);
                            },
                        };
                        let jump_text = parser.jump();
                        let jump_bits = match Code::try_jump(jump_text.as_str()) {
                            Some(jb) => jb,
                            None => {
                                proof {
                                    lemma_instructions_add(l.take(j + 1), l.skip(j + 1));
                                    assert(l.take(j + 1) + l.skip(j + 1) =~= l);
                                    lemma_pass2_err_extend(
                                        spec_instructions(l.take(j + 1)),
                                        spec_instructions(l.skip(j + 1)),
                                        t1,
                                        16,
                                    );
                                }
                                return Err(AsmError::UnknownJump);
                            },
                        };
                        let mut line = "111".to_owned();
                        line.append(comp_bits.as_str());
                        line.append(dest_bits.as_str());
                        line.append(jump_bits.as_str());
                        let ghost pre_out = out.deep_view();
                        out.push(line);
                        proof {
                            assert(out.deep_view() =~= pre_out.push(line@));
                        }
                    },
                    InstructionType::LInstruction => {},
                }
            },
            None => {},
        }
    }
    proof {
        assert(l.take(l.len() as int) =~= l);
    }
    Ok(out)
}

/// Translates a whole source text: its lines are split out and assembled.
pub fn assemble_source(source: &str) -> (r: Result<Vec<String>, AsmError>)
    requires
        source@.len() <= usize::MAX - 16,
    ensures
        spec_output_view(r) == spec_assemble(spec_split_lines(source@)),
{
    proof {
        lemma_split_lines_count(source@);
    }
    let lines = split_lines(source);
    assemble(&lines)
}

} // verus!
