use vstd::prelude::*;
use vstd::string::StrSliceExecFns;

verus! {

/// The arithmetic operation that an instruction applies to the running value.
#[derive(Clone, Copy, Debug, PartialEq, Eq, Structural)]
pub enum Operation {
    Add,
    Subtract,
    Multiply,
    Divide,
}

/// Why a token is not an instruction.
#[derive(Clone, Copy, Debug, PartialEq, Eq, Structural)]
pub enum ParseError {
    /// The token is empty, or its first character is not one of `+ - * /`.
    InvalidOperator,
    /// The text after the operator is not a finite decimal number literal.
    InvalidOperand,
}

/// An operation together with the literal operand it applies.
///
/// The operand is kept as the literal text of the token; an instruction
/// made by `Instruction::parse` has an operand that satisfies
/// `float_literal`. Turning it into a machine number is left to the caller.
#[derive(Clone, Debug)]
pub struct Instruction {
    pub operation: Operation,
    pub operand: String,
}

impl View for Instruction {
    type V = (Operation, Seq<char>);

    open spec fn view(&self) -> (Operation, Seq<char>) {
        (self.operation, self.operand@)
    }
}

/// The operation that an operator character stands for.
pub open spec fn operation_of(c: char) -> Option<Operation> {
    if c == '+' {
        Some(Operation::Add)
    } else if c == '-' {
        Some(Operation::Subtract)
    } else if c == '*' {
        Some(Operation::Multiply)
    } else if c == '/' {
        Some(Operation::Divide)
    } else {
        None
    }
}

/// The operator character of an operation.
pub open spec fn symbol_of(op: Operation) -> char {
    match op {
        Operation::Add => '+',
        Operation::Subtract => '-',
        Operation::Multiply => '*',
        Operation::Divide => '/',
    }
}

pub open spec fn is_digit(c: char) -> bool {
    '0' <= c <= '9'
}

pub open spec fn is_sign(c: char) -> bool {
    c == '+' || c == '-'
}

/// The number of decimal digits at the start of `s`.
pub open spec fn leading_digits(s: Seq<char>) -> nat
    decreases s.len(),
{
    if s.len() > 0 && is_digit(s[0]) {
        1 + leading_digits(s.drop_first())
    } else {
        0
    }
}

/// `s` without one leading sign character, if it has one.
pub open spec fn unsigned(s: Seq<char>) -> Seq<char> {
    if s.len() > 0 && is_sign(s[0]) {
        s.drop_first()
    } else {
        s
    }
}

/// A non-empty run of decimal digits.
pub open spec fn is_digits(s: Seq<char>) -> bool {
    s.len() > 0 && forall|i: int| 0 <= i < s.len() ==> is_digit(#[trigger] s[i])
}

/// An exponent: `e` or `E`, an optional sign, then digits.
pub open spec fn is_exponent(s: Seq<char>) -> bool {
    s.len() > 0 && (s[0] == 'e' || s[0] == 'E') && is_digits(unsigned(s.drop_first()))
}

/// Whether the digit run at the start of `s` is followed by a decimal point.
pub open spec fn has_point(s: Seq<char>) -> bool {
    leading_digits(s) < s.len() && s[leading_digits(s) as int] == '.'
}

/// The length of the mantissa at the start of `s`: digits, then optionally
/// a point and more digits.
pub open spec fn mantissa_len(s: Seq<char>) -> nat {
    if has_point(s) {
        leading_digits(s) + 1 + leading_digits(s.skip(leading_digits(s) + 1 as int))
    } else {
        leading_digits(s)
    }
}

/// The number of digits in the mantissa at the start of `s`.
pub open spec fn mantissa_digits(s: Seq<char>) -> nat {
    if has_point(s) {
        leading_digits(s) + leading_digits(s.skip(leading_digits(s) + 1 as int))
    } else {
        leading_digits(s)
    }
}

/// An unsigned finite number: a mantissa with at least one digit,
/// optionally followed by an exponent.
pub open spec fn is_number(s: Seq<char>) -> bool {
    mantissa_digits(s) > 0 && (mantissa_len(s) == s.len() || is_exponent(
        s.skip(mantissa_len(s) as int),
    ))
}

/// A finite decimal number literal, with an optional sign:
/// `2`, `-1.5`, `.5`, `3.`, `+6.02e23`.
pub open spec fn float_literal(s: Seq<char>) -> bool {
    is_number(unsigned(s))
}

/// What a token parses to: its operation and its operand text, or the error.
pub open spec fn parse_spec(s: Seq<char>) -> Result<(Operation, Seq<char>), ParseError> {
    if s.len() == 0 || operation_of(s[0]) is None {
        Err(ParseError::InvalidOperator)
    } else if !float_literal(s.drop_first()) {
        Err(ParseError::InvalidOperand)
    } else {
        Ok((operation_of(s[0])->0, s.drop_first()))
    }
}

proof fn lemma_leading_digits(s: Seq<char>)
    ensures
        leading_digits(s) <= s.len(),
        forall|i: int| 0 <= i < leading_digits(s) ==> is_digit(#[trigger] s[i]),
        leading_digits(s) < s.len() ==> !is_digit(s[leading_digits(s) as int]),
    decreases s.len(),
{
    if s.len() > 0 && is_digit(s[0]) {
        lemma_leading_digits(s.drop_first());
        assert forall|i: int| 0 <= i < leading_digits(s) implies is_digit(#[trigger] s[i]) by {
            if i > 0 {
                assert(s[i] == s.drop_first()[i - 1]);
            }
        }
    }
}

/// The end of the run of digits in `s` that starts at `from`.
fn digit_run(s: &Vec<char>, from: usize) -> (end: usize)
    requires
        from <= s.len(),
    ensures
        end == from + leading_digits(s@.skip(from as int)),
        end <= s.len(),
{
    let mut i: usize = from;
    while i < s.len() && '0' <= s[i] && s[i] <= '9'
        invariant
            from <= i <= s.len(),
            leading_digits(s@.skip(from as int)) == (i - from) + leading_digits(s@.skip(i as int)),
        decreases s.len() - i,
    {
        assert(s@.skip(i as int).drop_first() =~= s@.skip(i + 1));
        i = i + 1;
    }
    proof {
        lemma_leading_digits(s@.skip(i as int));
    }
    i
}

/// The characters of `s`.
fn chars_of(s: &str) -> (c: Vec<char>)
    ensures
        c@ == s@,
{
    let n = s.unicode_len();
    let mut c: Vec<char> = Vec::new();
    let mut k: usize = 0;
    while k < n
        invariant
            n == s@.len(),
            k <= n,
            c@ =~= s@.take(k as int),
        decreases n - k,
    {
        c.push(s.get_char(k));
        k = k + 1;
    }
    assert(c@ =~= s@);
    c
}

/// Whether the characters of `c` from `from` on form an exponent.
fn exponent_at(c: &Vec<char>, from: usize) -> (r: bool)
    requires
        from <= c.len(),
    ensures
        r == is_exponent(c@.skip(from as int)),
{
    let n = c.len();
    let ghost x = c@.skip(from as int);
    if from == n || (c[from] != 'e' && c[from] != 'E') {
        return false;
    }
    let e_start = from + 1;
    let d_start: usize = if e_start < n && (c[e_start] == '+' || c[e_start] == '-') {
        e_start + 1
    } else {
        e_start
    };
    let ghost v = unsigned(x.drop_first());
    assert(v =~= c@.skip(d_start as int));
    let d_end = digit_run(c, d_start);
    proof {
        lemma_leading_digits(v);
        if d_end == n && d_end > d_start {
            assert(is_digits(v));
        }
        if is_digits(v) && d_end < n {
            assert(is_digit(v[leading_digits(v) as int]));
        }
    }
    d_end == n && d_end > d_start
}

/// Whether the characters of `c` from `st` on form an unsigned number.
fn number_at(c: &Vec<char>, st: usize) -> (r: bool)
    requires
        st <= c.len(),
    ensures
        r == is_number(c@.skip(st as int)),
{
    let n = c.len();
    let ghost t = c@;
    let ghost u = t.skip(st as int);
    let a_end = digit_run(c, st);
    assert(leading_digits(u) == a_end - st);
    let point = a_end < n && c[a_end] == '.';
    assert(point == has_point(u)) by {
        if a_end < n {
            assert(u[leading_digits(u) as int] == t[a_end as int]);
        }
    }
    let m_end = if point {
        let f_end = digit_run(c, a_end + 1);
        assert(u.skip(leading_digits(u) + 1 as int) =~= t.skip(a_end + 1));
        f_end
    } else {
        a_end
    };
    let digits: usize = if point {
        m_end - a_end - 1 + (a_end - st)
    } else {
        a_end - st
    };
    assert(mantissa_len(u) == m_end - st);
    assert(mantissa_digits(u) == digits);
    if digits == 0 {
        return false;
    }
    if m_end == n {
        return true;
    }
    assert(u.skip(mantissa_len(u) as int) =~= t.skip(m_end as int));
    exponent_at(c, m_end)
}

/// Whether `s` is a finite decimal number literal.
pub fn is_float_literal(s: &str) -> (r: bool)
    ensures
        r == float_literal(s@),
{
    let c = chars_of(s);
    let st: usize = if c.len() > 0 && (c[0] == '+' || c[0] == '-') {
        1
    } else {
        0
    };
    assert(unsigned(c@) =~= c@.skip(st as int));
    number_at(&c, st)
}

impl Operation {
    /// The operation that an operator character stands for, if any.
    pub fn from_symbol(c: char) -> (r: Option<Operation>)
        ensures
            r == operation_of(c),
    {
        if c == '+' {
            Some(Operation::Add)
        } else if c == '-' {
            Some(Operation::Subtract)
        } else if c == '*' {
            Some(Operation::Multiply)
        } else if c == '/' {
            Some(Operation::Divide)
        } else {
            None
        }
    }
}

impl Instruction {
    /// Parses a token such as `+3` or `/0.5`: the first character names the
    /// operation, the rest is the operand literal.
    pub fn parse(s: &str) -> (r: Result<Instruction, ParseError>)
        ensures
            match parse_spec(s@) {
                Ok(v) => r is Ok && r->Ok_0@ == v,
                Err(e) => r == Err::<Instruction, ParseError>(e),
            },
    {
        let n = s.unicode_len();
        if n == 0 {
            return Err(ParseError::InvalidOperator);
        }
        let operation = match Operation::from_symbol(s.get_char(0)) {
            Some(op) => op,
            None => return Err(ParseError::InvalidOperator),
        };
        let operand = s.substring_char(1, n);
        assert(operand@ =~= s@.drop_first());
        if !is_float_literal(operand) {
            return Err(ParseError::InvalidOperand);
        }
        Ok(Instruction { operation, operand: operand.to_owned() })
    }
}

impl std::str::FromStr for Instruction {
    type Err = ParseError;

    fn from_str(s: &str) -> Result<Instruction, ParseError> {
        Instruction::parse(s)
    }
}

/// The instructions of the series `x -> 2x + 1`: `*2`, then `+1`.
pub fn get_operations() -> (r: Vec<Instruction>)
    ensures
        r@.len() == 2,
        r@[0]@ == (Operation::Multiply, seq!['2']),
        r@[1]@ == (Operation::Add, seq!['1']),
{
    proof {
        reveal_strlit("2");
        reveal_strlit("1");
    }
    let double = Instruction { operation: Operation::Multiply, operand: "2".to_owned() };
    let increment = Instruction { operation: Operation::Add, operand: "1".to_owned() };
    let mut r: Vec<Instruction> = Vec::new();
    r.push(double);
    r.push(increment);
    r
}

/// A token made of an operator character and a finite number literal
/// parses back to that operation and that literal.
pub proof fn lemma_parse_round_trip(op: Operation, operand: Seq<char>)
    requires
        float_literal(operand),
    ensures
        parse_spec(seq![symbol_of(op)] + operand) == Ok::<(Operation, Seq<char>), ParseError>(
            (op, operand),
        ),
{
    let s = seq![symbol_of(op)] + operand;
    assert(s.drop_first() =~= operand);
    assert(s[0] == symbol_of(op));
}

/// A token whose first character is not one of `+ - * /` (or that has no
/// first character) is refused for its operator.
pub proof fn lemma_bad_operator(s: Seq<char>)
    requires
        s.len() == 0 || !(s[0] == '+' || s[0] == '-' || s[0] == '*' || s[0] == '/'),
    ensures
        parse_spec(s) == Err::<(Operation, Seq<char>), ParseError>(ParseError::InvalidOperator),
{
}

/// A token with a valid operator whose remainder is not a finite number
/// literal is refused for its operand.
pub proof fn lemma_bad_operand(s: Seq<char>)
    requires
        s.len() > 0,
        s[0] == '+' || s[0] == '-' || s[0] == '*' || s[0] == '/',
        !float_literal(s.drop_first()),
    ensures
        parse_spec(s) == Err::<(Operation, Seq<char>), ParseError>(ParseError::InvalidOperand),
{
}

} // verus!
