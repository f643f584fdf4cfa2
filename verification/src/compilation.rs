//! Turns tokens into instructions.
//!
//! A numeric constant is kept as the text of its literal, which Rust's `f64`
//! parser accepts; the conversion to a floating-point value is the caller's.

use vstd::prelude::*;

use crate::chars::is_ascii_digit;
use crate::grammar::digits_end;
use crate::scan::{chars_of, models, Token, TokenModel, TokenType};
use std::string::String;

verus! {

/// `c` is the ASCII letter `lower`, in either case.
pub open spec fn same_letter(c: char, lower: char) -> bool {
    c == lower || (c as int) + 32 == lower as int
}

/// `u` spells `word` (given in lower case), ignoring ASCII case.
pub open spec fn spells(u: Seq<char>, word: Seq<char>) -> bool {
    &&& u.len() == word.len()
    &&& forall|i: int| 0 <= i < u.len() ==> same_letter(#[trigger] u[i], word[i])
}

/// A sign, `+` or `-`.
pub open spec fn is_sign(c: char) -> bool {
    c == '+' || c == '-'
}

/// An exponent: `e` (either case), an optional sign, and at least one digit.
pub open spec fn is_exponent(x: Seq<char>) -> bool {
    let j: int = if x.len() > 1 && is_sign(x[1]) {
        2
    } else {
        1
    };
    &&& x.len() > j
    &&& same_letter(x[0], 'e')
    &&& digits_end(x, j) == x.len()
}

/// The position after the mantissa of `u`: digits, then optionally a dot and
/// digits.
pub open spec fn mantissa_end(u: Seq<char>) -> int {
    let a = digits_end(u, 0);
    if a < u.len() && u[a] == '.' {
        digits_end(u, a + 1)
    } else {
        a
    }
}

/// The mantissa of `u` has a digit before or after its dot.
pub open spec fn mantissa_has_digit(u: Seq<char>) -> bool {
    digits_end(u, 0) > 0 || (mantissa_end(u) > digits_end(u, 0) + 1)
}

/// An unsigned decimal number: a mantissa with a digit, then an optional
/// exponent.
pub open spec fn is_unsigned_decimal(u: Seq<char>) -> bool {
    &&& mantissa_has_digit(u)
    &&& (mantissa_end(u) == u.len() || is_exponent(u.skip(mantissa_end(u))))
}

/// The text that `str::parse::<f64>` documents as accepted: an optional sign,
/// then `inf`, `infinity`, `nan` (in any case) or a decimal number
/// (`Digit+`, `Digit+ '.' Digit*` or `Digit* '.' Digit+`, with an optional
/// exponent `e Sign? Digit+`).
pub open spec fn is_float_literal(s: Seq<char>) -> bool {
    let u = if s.len() > 0 && is_sign(s[0]) {
        s.drop_first()
    } else {
        s
    };
    ||| spells(u, seq!['i', 'n', 'f'])
    ||| spells(u, seq!['i', 'n', 'f', 'i', 'n', 'i', 't', 'y'])
    ||| spells(u, seq!['n', 'a', 'n'])
    ||| is_unsigned_decimal(u)
}

/// Tests `c` for the ASCII letter `lower` in either case.
fn letter_is(c: char, lower: char) -> (r: bool)
    requires
        'a' <= lower <= 'z',
    ensures
        r == same_letter(c, lower),
{
    c == lower || (c as u32) + 32 == (lower as u32)
}

/// The end of the run of digits in `v` from `i`.
fn digits_from(v: &Vec<char>, i: usize) -> (j: usize)
    requires
        i <= v.len(),
    ensures
        j == digits_end(v@, i as int),
        i <= j <= v.len(),
{
    let mut j = i;
    while j < v.len() && '0' <= v[j] && v[j] <= '9'
        invariant
            i <= j <= v.len(),
            digits_end(v@, j as int) == digits_end(v@, i as int),
        decreases v.len() - j,
    {
        j += 1;
    }
    j
}

/// Whether `v` from `from` on spells `word` (lower case), ignoring ASCII case.
fn spells_from(v: &Vec<char>, from: usize, word: &Vec<char>) -> (r: bool)
    requires
        from <= v.len(),
        forall|i: int| 0 <= i < word.len() ==> 'a' <= #[trigger] word@[i] <= 'z',
    ensures
        r == spells(v@.skip(from as int), word@),
{
    let u = Ghost(v@.skip(from as int));
    if v.len() - from != word.len() {
        return false;
    }
    let mut i: usize = 0;
    while i < word.len()
        invariant
            from <= v.len(),
            v.len() - from == word.len(),
            u@ == v@.skip(from as int),
            forall|k: int| 0 <= k < word.len() ==> 'a' <= #[trigger] word@[k] <= 'z',
            i <= word.len(),
            forall|k: int| 0 <= k < i ==> same_letter(#[trigger] u@[k], word@[k]),
        decreases word.len() - i,
    {
        if !letter_is(v[from + i], word[i]) {
            assert(!same_letter(u@[i as int], word@[i as int]));
            return false;
        }
        i += 1;
    }
    true
}

/// A run of digits is found at the same place in a suffix.
proof fn lemma_digits_end_skip(s: Seq<char>, f: int, k: int)
    requires
        0 <= f <= s.len(),
        0 <= k,
    ensures
        digits_end(s.skip(f), k) == digits_end(s, f + k) - f,
    decreases s.len() - f - k,
{
    if k < s.len() - f && is_ascii_digit(s[f + k]) {
        lemma_digits_end_skip(s, f, k + 1);
    }
}

/// Whether `v` from `b` on is an exponent.
fn exponent_at(v: &Vec<char>, b: usize) -> (r: bool)
    requires
        b < v.len(),
    ensures
        r == is_exponent(v@.skip(b as int)),
{
    let ghost x = v@.skip(b as int);
    if !letter_is(v[b], 'e') {
        return false;
    }
    let mut j = b + 1;
    if j < v.len() && (v[j] == '+' || v[j] == '-') {
        j += 1;
    }
    assert(j - b == if x.len() > 1 && is_sign(x[1]) { 2int } else { 1int });
    if j >= v.len() {
        return false;
    }
    let end = digits_from(v, j);
    proof {
        lemma_digits_end_skip(v@, b as int, j - b);
    }
    end == v.len()
}

/// Whether `v` from `from` on is an unsigned decimal number.
fn unsigned_decimal_at(v: &Vec<char>, from: usize) -> (r: bool)
    requires
        from <= v.len(),
    ensures
        r == is_unsigned_decimal(v@.skip(from as int)),
{
    let ghost s = v@;
    let ghost u = s.skip(from as int);
    let a = digits_from(v, from);
    proof {
        lemma_digits_end_skip(s, from as int, 0);
    }
    let mut b = a;
    if a < v.len() && v[a] == '.' {
        b = digits_from(v, a + 1);
        proof {
            lemma_digits_end_skip(s, from as int, a - from + 1);
        }
    }
    assert(mantissa_end(u) == b - from);
    if !(a > from || b - a > 1) {
        return false;
    }
    if b == v.len() {
        return true;
    }
    proof {
        assert(u.skip(b - from) =~= s.skip(b as int));
    }
    exponent_at(v, b)
}

/// Whether `text` is accepted by the grammar that `str::parse::<f64>`
/// documents.
pub fn float_literal(text: &str) -> (r: bool)
    ensures
        r == is_float_literal(text@),
{
    let v = chars_of(text);
    let ghost s = v@;
    let from: usize = if v.len() > 0 && (v[0] == '+' || v[0] == '-') {
        1
    } else {
        0
    };
    let ghost u = s.skip(from as int);
    proof {
        if from == 1 {
            assert(s.drop_first() =~= u);
        } else {
            assert(s =~= u);
        }
    }
    let inf = vec!['i', 'n', 'f'];
    let infinity = vec!['i', 'n', 'f', 'i', 'n', 'i', 't', 'y'];
    let nan = vec!['n', 'a', 'n'];
    proof {
        assert(inf@ =~= seq!['i', 'n', 'f']);
        assert(infinity@ =~= seq!['i', 'n', 'f', 'i', 'n', 'i', 't', 'y']);
        assert(nan@ =~= seq!['n', 'a', 'n']);
    }
    if spells_from(&v, from, &inf) {
        return true;
    }
    if spells_from(&v, from, &infinity) {
        return true;
    }
    if spells_from(&v, from, &nan) {
        return true;
    }
    unsigned_decimal_at(&v, from)
}

/// Why compilation failed.
#[derive(Debug)]
pub enum ParseError {
    /// The tokens ran out where an expression should begin.
    UnexpectedToken,
    /// A number's text is not a floating-point literal.
    InvalidNumericLiteral,
}

/// An operation. `Const` pushes a constant, given as the text of a numeric
/// literal that `str::parse::<f64>` accepts.
#[derive(Debug, PartialEq, Clone)]
pub enum Opcode {
    Const(String),
}

/// What an instruction stands for: the text of its constant and its line.
pub struct InstructionModel {
    pub constant: Seq<char>,
    pub line: nat,
}

/// An operation and the source line it came from.
#[derive(Debug)]
pub struct Instruction {
    opcode: Opcode,
    line: usize,
}

impl View for Instruction {
    type V = InstructionModel;

    closed spec fn view(&self) -> InstructionModel {
        match self.opcode {
            Opcode::Const(text) => InstructionModel { constant: text@, line: self.line as nat },
        }
    }
}

impl Instruction {
    /// An instruction for `opcode` from source line `line`.
    pub fn new(opcode: Opcode, line: usize) -> (i: Instruction)
        ensures
            i@ == (InstructionModel { constant: opcode_constant(opcode), line: line as nat }),
    {
        Instruction { opcode, line }
    }

    /// The source line the instruction came from.
    pub fn line(&self) -> (r: usize)
        ensures
            r == self@.line,
    {
        self.line
    }

    /// The instruction's operation.
    pub fn opcode(&self) -> (r: &Opcode)
        ensures
            match *r {
                Opcode::Const(text) => text@ == self@.constant,
            },
    {
        &self.opcode
    }
}

/// The text of an operation's constant.
pub open spec fn opcode_constant(opcode: Opcode) -> Seq<char> {
    match opcode {
        Opcode::Const(text) => text@,
    }
}

/// The models of a sequence of instructions.
pub open spec fn instruction_models(instructions: Seq<Instruction>) -> Seq<InstructionModel> {
    instructions.map_values(|i: Instruction| i@)
}

/// What compiling `tokens` gives: the first token must be there, and its
/// text must be a floating-point literal; it becomes one constant.
pub open spec fn compile_spec(tokens: Seq<TokenModel>) -> Result<Seq<InstructionModel>, ParseError> {
    if tokens.len() == 0 {
        Err(ParseError::UnexpectedToken)
    } else if is_float_literal(tokens[0].lexeme) {
        Ok(seq![InstructionModel { constant: tokens[0].lexeme, line: tokens[0].line }])
    } else {
        Err(ParseError::InvalidNumericLiteral)
    }
}

/// Turns tokens into instructions.
pub struct Compiler<'a> {
    tokens: Vec<Token<'a>>,
    instructions: Vec<Instruction>,
    current: usize,
}

impl<'a> Compiler<'a> {
    /// The tokens being compiled.
    pub closed spec fn tokens(&self) -> Seq<TokenModel> {
        models(self.tokens@)
    }

    /// The compiler is as `new` made it: nothing read, nothing emitted.
    pub closed spec fn is_fresh(&self) -> bool {
        self.current == 0 && self.instructions@.len() == 0
    }

    /// A compiler for `tokens`.
    pub fn new(tokens: Vec<Token<'a>>) -> (c: Self)
        ensures
            c.tokens() == models(tokens@),
            c.is_fresh(),
    {
        Self { tokens, instructions: vec![], current: 0 }
    }

    /// Compiles one expression: a number. The tokens may be empty; if there
    /// are any, the first must be a number, the only expression there is.
    pub fn compile(self) -> (r: Result<Vec<Instruction>, ParseError>)
        requires
            self.is_fresh(),
            self.tokens().len() > 0 ==> self.tokens()[0].typ == TokenType::Number,
        ensures
            match compile_spec(self.tokens()) {
                Ok(instructions) => r matches Ok(emitted) && instruction_models(emitted@)
                    == instructions,
                Err(ParseError::UnexpectedToken) => r matches Err(ParseError::UnexpectedToken),
                Err(ParseError::InvalidNumericLiteral) => r matches Err(
                    ParseError::InvalidNumericLiteral,
                ),
            },
    {
        let mut compiler = self;
        proof {
            assert(instruction_models(compiler.instructions@) =~= Seq::<InstructionModel>::empty());
            if compiler.tokens.len() > 0 {
                assert(compiler.tokens@[0]@ == self.tokens()[0]);
            }
        }
        match compiler.expression() {
            Ok(()) => {},
            Err(e) => return Err(e),
        }
        proof {
            assert(instruction_models(compiler.instructions@) =~= compile_spec(
                self.tokens(),
            )->Ok_0);
        }
        Ok(compiler.instructions)
    }

    fn is_at_end(&self) -> (r: bool)
        ensures
            r == (self.current >= self.tokens.len()),
    {
        self.current >= self.tokens.len()
    }

    /// The token at the compiler's position, if any.
    fn peek(&self) -> (r: Option<&Token<'a>>)
        ensures
            r == if self.current < self.tokens.len() {
                Some(&self.tokens@[self.current as int])
            } else {
                None
            },
    {
        if self.current < self.tokens.len() {
            Some(&self.tokens[self.current])
        } else {
            None
        }
    }

    /// Steps over the token at the compiler's position and returns it.
    fn consume(&mut self) -> (r: Option<Token<'a>>)
        ensures
            final(self).tokens == old(self).tokens,
            final(self).instructions == old(self).instructions,
            old(self).current < old(self).tokens.len() ==> r == Some(
                old(self).tokens@[old(self).current as int],
            ) && final(self).current == old(self).current + 1,
            old(self).current >= old(self).tokens.len() ==> r is None && final(self).current
                == old(self).current,
    {
        if self.is_at_end() {
            None
        } else {
            let token = self.tokens[self.current];
            self.current += 1;
            Some(token)
        }
    }

    /// Compiles the expression that begins at the compiler's position. A
    /// token there must be a number, the only expression there is.
    fn expression(&mut self) -> (r: Result<(), ParseError>)
        requires
            old(self).current < old(self).tokens.len() ==> old(self).tokens@[old(
                self,
            ).current as int]@.typ == TokenType::Number,
        ensures
            final(self).tokens == old(self).tokens,
            old(self).current >= old(self).tokens.len() ==> {
                &&& r matches Err(ParseError::UnexpectedToken)
                &&& final(self).current == old(self).current
                &&& final(self).instructions@ == old(self).instructions@
            },
            old(self).current < old(self).tokens.len() ==> {
                let token = old(self).tokens@[old(self).current as int]@;
                &&& final(self).current == old(self).current + 1
                &&& is_float_literal(token.lexeme) ==> {
                    &&& r is Ok
                    &&& final(self).instructions@.len() == old(self).instructions@.len() + 1
                    &&& final(self).instructions@.drop_last() == old(self).instructions@
                    &&& instruction_models(final(self).instructions@) == instruction_models(
                        old(self).instructions@,
                    ).push(InstructionModel { constant: token.lexeme, line: token.line })
                }
                &&& !is_float_literal(token.lexeme) ==> {
                    &&& r matches Err(ParseError::InvalidNumericLiteral)
                    &&& final(self).instructions@ == old(self).instructions@
                }
            },
    {
        match self.consume() {
            None => Err(ParseError::UnexpectedToken),
            Some(token) => match token.typ() {
                TokenType::Number => self.number(&token),
                _ => vstd::pervasive::unreached(),
            },
        }
    }

    /// Compiles a number token into a constant: one instruction when its
    /// text is a floating-point literal, none otherwise.
    fn number(&mut self, token: &Token<'a>) -> (r: Result<(), ParseError>)
        ensures
            final(self).tokens == old(self).tokens,
            final(self).current == old(self).current,
            is_float_literal(token@.lexeme) ==> {
                &&& r is Ok
                &&& final(self).instructions@.len() == old(self).instructions@.len() + 1
                &&& final(self).instructions@.drop_last() == old(self).instructions@
                &&& instruction_models(final(self).instructions@) == instruction_models(
                    old(self).instructions@,
                ).push(InstructionModel { constant: token@.lexeme, line: token@.line })
            },
            !is_float_literal(token@.lexeme) ==> {
                &&& r matches Err(ParseError::InvalidNumericLiteral)
                &&& final(self).instructions@ == old(self).instructions@
            },
    {
        let lexeme = token.lexeme();
        if float_literal(lexeme) {
            let text = String::from_str(lexeme);
            self.emit(Opcode::Const(text), token);
            Ok(())
        } else {
            Err(ParseError::InvalidNumericLiteral)
        }
    }

    /// Appends an instruction for `opcode` at `token`'s line.
    fn emit(&mut self, opcode: Opcode, token: &Token<'a>)
        ensures
            final(self).tokens == old(self).tokens,
            final(self).current == old(self).current,
            final(self).instructions@.len() == old(self).instructions@.len() + 1,
            final(self).instructions@.drop_last() == old(self).instructions@,
            instruction_models(final(self).instructions@) == instruction_models(
                old(self).instructions@,
            ).push(InstructionModel { constant: opcode_constant(opcode), line: token@.line }),
    {
        let inst = Instruction::new(opcode, token.line());
        let ghost before = self.instructions@;
        self.instructions.push(inst);
        assert(instruction_models(self.instructions@) =~= instruction_models(before).push(inst@));
        assert(self.instructions@.drop_last() =~= before);
    }
}

} // verus!
