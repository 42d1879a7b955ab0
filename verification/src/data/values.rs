//! The values a program computes at run time.
use vstd::prelude::*;
use vstd::string::*;

verus! {

/// A 64-bit integer.
#[derive(Debug, Clone)]
pub struct Number {
    pub value: i64,
}

/// A truth value.
#[derive(Debug, Clone)]
pub struct Boolean {
    pub value: bool,
}

/// The members of a tuple, in order.
#[derive(Debug, Clone)]
pub struct Tuple {
    pub elements: Vec<Value>,
}

/// A reference to a function by its name. It carries no environment.
#[derive(Debug, Clone)]
pub struct Function {
    pub name: String,
}

/// A text.
#[derive(Debug, Clone)]
pub struct Text {
    pub text: String,
}

/// The elements of an array, in order.
#[derive(Debug, Clone)]
pub struct Array {
    pub elements: Vec<Value>,
}

/// A value of an extern type, as its parts.
#[derive(Debug, Clone)]
pub struct ExternValue {
    pub values: Vec<Value>,
}

/// A value of the language.
#[derive(Debug)]
pub enum Value {
    Number(Number),
    Boolean(Boolean),
    Tuple(Tuple),
    Function(Function),
    Text(Text),
    Array(Array),
    ExternValue(ExternValue),
    Void,
}

/// A value as a mathematical value.
#[allow(inconsistent_fields)]
pub enum ValueView {
    Number { value: i64 },
    Boolean { value: bool },
    Tuple { elements: Seq<ValueView> },
    Function { name: Seq<char> },
    Text { text: Seq<char> },
    Array { elements: Seq<ValueView> },
    Extern { values: Seq<ValueView> },
    Void,
}

/// The mathematical value of a value.
pub open spec fn value_view(v: Value) -> ValueView
    decreases v,
{
    match v {
        Value::Number(n) => ValueView::Number { value: n.value },
        Value::Boolean(b) => ValueView::Boolean { value: b.value },
        Value::Tuple(t) => ValueView::Tuple { elements: values_view(t.elements) },
        Value::Function(f) => ValueView::Function { name: f.name@ },
        Value::Text(t) => ValueView::Text { text: t.text@ },
        Value::Array(a) => ValueView::Array { elements: values_view(a.elements) },
        Value::ExternValue(e) => ValueView::Extern { values: values_view(e.values) },
        Value::Void => ValueView::Void,
    }
}

/// The mathematical values of a list of values, in order.
pub open spec fn values_view(vs: Vec<Value>) -> Seq<ValueView>
    decreases vs,
{
    Seq::new(
        vs.len() as nat,
        |i: int|
            if 0 <= i < vs.len() {
                value_view(vs[i])
            } else {
                ValueView::Void
            },
    )
}

impl View for Value {
    type V = ValueView;

    open spec fn view(&self) -> ValueView {
        value_view(*self)
    }
}

/// The decimal digits of a natural number, most significant first.
pub open spec fn digits(n: nat) -> Seq<char>
    decreases n,
{
    let last = (('0' as u8) + (n % 10) as u8) as char;
    if n < 10 {
        seq![last]
    } else {
        digits(n / 10).push(last)
    }
}

/// An integer in decimal, with a minus sign in front of a negative one.
pub open spec fn decimal_text(v: int) -> Seq<char> {
    if v < 0 {
        seq!['-'] + digits((-v) as nat)
    } else {
        digits(v as nat)
    }
}

/// The text `print` shows for a value: a number in decimal, a truth value
/// as `true` or `false`, a text or a function name as it is, the members of
/// a tuple or an array side by side between their brackets.
pub open spec fn display_text(v: ValueView) -> Seq<char>
    decreases v, 0nat,
{
    match v {
        ValueView::Number { value } => decimal_text(value as int),
        ValueView::Boolean { value } => if value {
            "true"@
        } else {
            "false"@
        },
        ValueView::Tuple { elements } => "("@ + display_all(elements, 0) + ")"@,
        ValueView::Function { name } => name,
        ValueView::Text { text } => text,
        ValueView::Array { elements } => "["@ + display_all(elements, 0) + "]"@,
        ValueView::Extern { values } => display_all(values, 0),
        ValueView::Void => "void"@,
    }
}

/// The texts of the values from the `i`-th on, side by side.
pub open spec fn display_all(vs: Seq<ValueView>, i: int) -> Seq<char>
    decreases vs, vs.len() - i,
{
    if i < 0 || i >= vs.len() {
        Seq::empty()
    } else {
        display_text(vs[i]) + display_all(vs, i + 1)
    }
}

/// The text that the derived `Debug` of `Value` writes for a value.
pub uninterp spec fn value_debug_text(v: ValueView) -> Seq<char>;

/// Renders a value the way its derived `Debug` does, by `format!("{:?}", v)`.
/// Two values of the same shape are written alike, so the text is a function
/// of the value's mathematical value.
#[verifier::external_body]
pub(crate) fn value_debug_string(v: &Value) -> (s: String)
    ensures
        s@ == value_debug_text(v@),
{
    format!("{:?}", v)
}

/// Writes a 64-bit integer the way its `Display` does, by `format!("{}", v)`:
/// in decimal, with a minus sign in front of a negative one.
#[verifier::external_body]
pub(crate) fn number_text(v: i64) -> (s: String)
    ensures
        s@ == decimal_text(v as int),
{
    format!("{}", v)
}

fn clone_values(vs: &Vec<Value>) -> (r: Vec<Value>)
    ensures
        values_view(r) == values_view(*vs),
    decreases vs,
{
    let mut r: Vec<Value> = Vec::new();
    let mut i: usize = 0;
    while i < vs.len()
        invariant
            i <= vs@.len(),
            r@.len() == i,
            forall|j: int| 0 <= j < i ==> r@[j]@ == vs@[j]@,
        decreases vs@.len() - i,
    {
        r.push(vs[i].clone());
        i += 1;
    }
    assert(values_view(r) =~= values_view(*vs));
    r
}

impl Clone for Value {
    fn clone(&self) -> (r: Value)
        ensures
            r@ == self@,
        decreases self,
    {
        match self {
            Value::Number(n) => Value::Number(Number { value: n.value }),
            Value::Boolean(b) => Value::Boolean(Boolean { value: b.value }),
            Value::Tuple(t) => Value::Tuple(Tuple { elements: clone_values(&t.elements) }),
            Value::Function(f) => Value::Function(Function { name: f.name.clone() }),
            Value::Text(t) => Value::Text(Text { text: t.text.clone() }),
            Value::Array(a) => Value::Array(Array { elements: clone_values(&a.elements) }),
            Value::ExternValue(e) => Value::ExternValue(ExternValue { values: clone_values(&e.values) }),
            Value::Void => Value::Void,
        }
    }
}

fn append_all(out: &mut String, vs: &Vec<Value>)
    ensures
        final(out)@ == old(out)@ + display_all(values_view(*vs), 0),
    decreases vs,
{
    let ghost all = values_view(*vs);
    let ghost start = out@;
    let mut i: usize = 0;
    while i < vs.len()
        invariant
            i <= vs.len(),
            all == values_view(*vs),
            out@ + display_all(all, i as int) == start + display_all(all, 0),
        decreases vs.len() - i,
    {
        let ghost before = out@;
        let text = vs[i].to_text();
        out.append(text.as_str());
        proof {
            assert(all[i as int] == vs[i as int]@);
            assert(before + display_all(all, i as int) =~= out@ + display_all(all, i + 1));
        }
        i += 1;
    }
    assert(out@ + display_all(all, i as int) =~= out@);
}

impl Value {
    pub fn from_num(v: i64) -> (r: Value)
        ensures
            r@ == (ValueView::Number { value: v }),
    {
        Value::Number(Number::from(v))
    }

    pub fn from_bool(v: bool) -> (r: Value)
        ensures
            r@ == (ValueView::Boolean { value: v }),
    {
        Value::Boolean(Boolean { value: v })
    }

    pub fn from_tuple(v: Vec<Value>) -> (r: Value)
        ensures
            r@ == (ValueView::Tuple { elements: values_view(v) }),
    {
        Value::Tuple(Tuple { elements: v })
    }

    pub fn from_function(n: String) -> (r: Value)
        ensures
            r@ == (ValueView::Function { name: n@ }),
    {
        Value::Function(Function { name: n })
    }

    pub fn from_text(n: &str) -> (r: Value)
        ensures
            r@ == (ValueView::Text { text: n@ }),
    {
        Value::Text(Text { text: String::from_str(n) })
    }

    pub fn from_text_string(n: String) -> (r: Value)
        ensures
            r@ == (ValueView::Text { text: n@ }),
    {
        Value::Text(Text { text: n })
    }

    pub fn from_array(v: Vec<Value>) -> (r: Value)
        ensures
            r@ == (ValueView::Array { elements: values_view(v) }),
    {
        Value::Array(Array { elements: v })
    }

    pub fn from_extern(vs: Vec<Value>) -> (r: Value)
        ensures
            r@ == (ValueView::Extern { values: values_view(vs) }),
    {
        Value::ExternValue(ExternValue { values: vs })
    }

    /// The text `print` shows for the value.
    pub fn to_text(&self) -> (s: String)
        ensures
            s@ == display_text(self@),
        decreases self,
    {
        match self {
            Value::Number(n) => number_text(n.value),
            Value::Boolean(b) => if b.value {
                String::from_str("true")
            } else {
                String::from_str("false")
            },
            Value::Tuple(t) => {
                let mut s = String::from_str("(");
                append_all(&mut s, &t.elements);
                s.append(")");
                s
            },
            Value::Function(f) => f.name.clone(),
            Value::Text(t) => t.text.clone(),
            Value::Array(a) => {
                let mut s = String::from_str("[");
                append_all(&mut s, &a.elements);
                s.append("]");
                s
            },
            Value::ExternValue(e) => {
                let mut s = String::new();
                append_all(&mut s, &e.values);
                assert(s@ =~= display_all(values_view(e.values), 0));
                s
            },
            Value::Void => String::from_str("void"),
        }
    }

    /// The text the derived `Debug` writes for the value.
    pub fn to_debug_text(&self) -> (s: String)
        ensures
            s@ == value_debug_text(self@),
    {
        value_debug_string(self)
    }
}

impl Number {
    pub fn from(v: i64) -> (n: Number)
        ensures
            n.value == v,
    {
        Number { value: v }
    }
}

} // verus!
