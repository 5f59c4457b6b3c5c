//! The runtime values of the language and their printed form.

use vstd::prelude::*;
use vstd::string::*;

verus! {

/// The mathematical model of a [`Value`].
pub enum ValueView {
    Integer(int),
    Bool(bool),
    String(Seq<char>),
    Nil,
}

/// A runtime value.
#[derive(Debug)]
pub enum Value {
    Integer(i32),
    Bool(bool),
    String(String),
    Nil,
}

impl View for Value {
    type V = ValueView;

    open spec fn view(&self) -> ValueView {
        match self {
            Value::Integer(n) => ValueView::Integer(*n as int),
            Value::Bool(b) => ValueView::Bool(*b),
            Value::String(s) => ValueView::String(s@),
            Value::Nil => ValueView::Nil,
        }
    }
}

impl Clone for Value {
    fn clone(&self) -> (r: Value)
        ensures
            r@ == self@,
    {
        match self {
            Value::Integer(n) => Value::Integer(*n),
            Value::Bool(b) => Value::Bool(*b),
            Value::String(s) => Value::String(s.clone()),
            Value::Nil => Value::Nil,
        }
    }
}

impl PartialEq for Value {
    fn eq(&self, other: &Value) -> (r: bool) {
        match (self, other) {
            (Value::Integer(a), Value::Integer(b)) => *a == *b,
            (Value::Bool(a), Value::Bool(b)) => *a == *b,
            (Value::String(a), Value::String(b)) => *a == *b,
            (Value::Nil, Value::Nil) => true,
            _ => false,
        }
    }
}

impl vstd::std_specs::cmp::PartialEqSpecImpl for Value {
    open spec fn obeys_eq_spec() -> bool {
        true
    }

    open spec fn eq_spec(&self, other: &Value) -> bool {
        self@ == other@
    }
}

/// The character of the decimal digit `d`.
pub open spec fn digit_char(d: int) -> char
    recommends
        0 <= d < 10,
{
    (48 + d) as char
}

/// The decimal digits of `n`, most significant first, without leading zeros.
pub open spec fn decimal_digits(n: nat) -> Seq<char>
    decreases n,
{
    if n < 10 {
        seq![digit_char(n as int)]
    } else {
        decimal_digits(n / 10).push(digit_char((n % 10) as int))
    }
}

/// The decimal form of `n`, with a leading `-` when `n` is negative.
pub open spec fn decimal(n: int) -> Seq<char> {
    if n < 0 {
        seq!['-'] + decimal_digits((-n) as nat)
    } else {
        decimal_digits(n as nat)
    }
}

/// The printed form of a value: integers in decimal, booleans as `true` or
/// `false`, strings between double quotes, nil as `nil`.
pub open spec fn render(v: ValueView) -> Seq<char> {
    match v {
        ValueView::Integer(n) => decimal(n),
        ValueView::Bool(b) => if b { "true"@ } else { "false"@ },
        ValueView::String(s) => seq!['"'] + s + seq!['"'],
        ValueView::Nil => "nil"@,
    }
}

/// Appends the decimal digits of `n` to `out`.
fn push_decimal_digits(out: &mut String, n: u32)
    ensures
        final(out)@ == old(out)@ + decimal_digits(n as nat),
    decreases n,
{
    if n >= 10 {
        push_decimal_digits(out, n / 10);
    }
    let d: u8 = (n % 10) as u8;
    out.push((48u8 + d) as char);
    assert(final(out)@ =~= old(out)@ + decimal_digits(n as nat));
}

impl Value {
    /// Whether the value is an integer.
    pub fn is_integer(&self) -> (r: bool)
        ensures
            r == (self@ is Integer),
    {
        match self {
            Value::Integer(_) => true,
            _ => false,
        }
    }

    /// Whether the value is a boolean.
    pub fn is_bool(&self) -> (r: bool)
        ensures
            r == (self@ is Bool),
    {
        match self {
            Value::Bool(_) => true,
            _ => false,
        }
    }

    /// Whether the value is a string.
    pub fn is_string(&self) -> (r: bool)
        ensures
            r == (self@ is String),
    {
        match self {
            Value::String(_) => true,
            _ => false,
        }
    }

    /// Whether the value is nil.
    pub fn is_nil(&self) -> (r: bool)
        ensures
            r == (self@ is Nil),
    {
        match self {
            Value::Nil => true,
            _ => false,
        }
    }

    /// The integer held by an integer value.
    pub fn unwrap_integer(&self) -> (r: i32)
        requires
            self@ is Integer,
        ensures
            self@ == ValueView::Integer(r as int),
    {
        match self {
            Value::Integer(n) => *n,
            _ => 0,
        }
    }

    /// The truth value held by a boolean value.
    pub fn unwrap_bool(&self) -> (r: bool)
        requires
            self@ is Bool,
        ensures
            self@ == ValueView::Bool(r),
    {
        match self {
            Value::Bool(b) => *b,
            _ => false,
        }
    }

    /// The text held by a string value.
    pub fn unwrap_string(&self) -> (r: &str)
        requires
            self@ is String,
        ensures
            self@ == ValueView::String(r@),
    {
        match self {
            Value::String(s) => s.as_str(),
            _ => "",
        }
    }

    /// The printed form of the value.
    pub fn to_text(&self) -> (r: String)
        ensures
            r@ == render(self@),
    {
        match self {
            Value::Integer(n) => {
                let mut out = String::new();
                if *n < 0 {
                    out.push('-');
                    let magnitude: i64 = -(*n as i64);
                    push_decimal_digits(&mut out, magnitude as u32);
                } else {
                    push_decimal_digits(&mut out, *n as u32);
                }
                assert(out@ =~= decimal(*n as int));
                out
            },
            Value::Bool(b) => {
                if *b {
                    String::from_str("true")
                } else {
                    String::from_str("false")
                }
            },
            Value::String(s) => {
                let mut out = String::new();
                out.push('"');
                out.append(s.as_str());
                out.push('"');
                assert(out@ =~= seq!['"'] + s@ + seq!['"']);
                out
            },
            Value::Nil => String::from_str("nil"),
        }
    }
}

} // verus!
