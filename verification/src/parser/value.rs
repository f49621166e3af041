use vstd::prelude::*;
use vstd::string::StrSliceExecFns;

verus! {

/// A value at run time.
///
/// A number is held as the 64 bits of an IEEE 754 double. The library
/// compares and negates numbers on their bits; it leaves arithmetic, the
/// reading of a number's digits and the writing of a number to its user.
/// A function is held as its place among the functions that the
/// interpreter has met.
#[derive(Debug)]
pub enum Value {
    Number(u64),
    Str(String),
    Bool(bool),
    Nil,
    Callable(usize),
}

/// The mathematical value of a [`Value`].
pub enum ValueView {
    Number(u64),
    Str(Seq<char>),
    Bool(bool),
    Nil,
    Callable(nat),
}

impl View for Value {
    type V = ValueView;

    open spec fn view(&self) -> ValueView {
        match self {
            Value::Number(bits) => ValueView::Number(*bits),
            Value::Str(text) => ValueView::Str(text@),
            Value::Bool(b) => ValueView::Bool(*b),
            Value::Nil => ValueView::Nil,
            Value::Callable(function) => ValueView::Callable(*function as nat),
        }
    }
}

/// The bits of a double without its sign.
pub open spec fn number_magnitude(bits: u64) -> u64 {
    bits & 0x7fff_ffff_ffff_ffff
}

/// Whether the sign of a double is set.
pub open spec fn number_is_negative(bits: u64) -> bool {
    bits & 0x8000_0000_0000_0000 != 0
}

/// Whether a double is no number: all bits of its exponent are set, and
/// some bit behind them.
pub open spec fn number_is_nan(bits: u64) -> bool {
    number_magnitude(bits) > 0x7ff0_0000_0000_0000
}

/// Whether a double is zero, of either sign.
pub open spec fn number_is_zero(bits: u64) -> bool {
    number_magnitude(bits) == 0
}

/// The double of the other sign.
pub open spec fn number_negate(bits: u64) -> u64 {
    bits ^ 0x8000_0000_0000_0000
}

/// `left == right` between doubles: neither is no number, and they are
/// the same or both zero.
pub open spec fn number_equal(left: u64, right: u64) -> bool {
    &&& !number_is_nan(left)
    &&& !number_is_nan(right)
    &&& (left == right || (number_is_zero(left) && number_is_zero(right)))
}

/// `left < right` between doubles: neither is no number; and of two of
/// one sign, the magnitudes decide, while one of the negative sign lies
/// below every other that is not zero with it.
pub open spec fn number_less(left: u64, right: u64) -> bool {
    &&& !number_is_nan(left)
    &&& !number_is_nan(right)
    &&& if number_is_negative(left) {
        if number_is_negative(right) {
            number_magnitude(left) > number_magnitude(right)
        } else {
            !(number_is_zero(left) && number_is_zero(right))
        }
    } else {
        !number_is_negative(right) && number_magnitude(left) < number_magnitude(right)
    }
}

/// Whether `left` comes before `right` from `from` on, character by
/// character: at the first place where they differ, or where `left` ends
/// and `right` goes on.
pub open spec fn text_less_from(left: Seq<char>, right: Seq<char>, from: int) -> bool
    decreases left.len() - from,
{
    if from < 0 || from >= right.len() {
        false
    } else if from >= left.len() {
        true
    } else if left[from] != right[from] {
        left[from] < right[from]
    } else {
        text_less_from(left, right, from + 1)
    }
}

/// Whether `left` comes before `right` in the order of the dictionary.
pub open spec fn text_less(left: Seq<char>, right: Seq<char>) -> bool {
    text_less_from(left, right, 0)
}

impl ValueView {
    /// A value counts as true unless it is `false`, `nil`, zero or the
    /// empty string.
    pub open spec fn is_truthy(self) -> bool {
        match self {
            ValueView::Bool(b) => b,
            ValueView::Number(bits) => !number_is_zero(bits),
            ValueView::Str(text) => text.len() > 0,
            ValueView::Nil => false,
            ValueView::Callable(_) => true,
        }
    }

    pub open spec fn is_falsy(self) -> bool {
        !self.is_truthy()
    }

    /// What kind of value this is, as diagnostics name it.
    pub open spec fn kind_name(self) -> Seq<char> {
        match self {
            ValueView::Number(_) => "a number"@,
            ValueView::Str(_) => "a string"@,
            ValueView::Bool(_) => "a boolean"@,
            ValueView::Nil => "nil"@,
            ValueView::Callable(_) => "a callable"@,
        }
    }
}

/// Every value counts as true or as false, and none as both.
pub proof fn lemma_truthy_or_falsy(value: ValueView)
    ensures
        value.is_truthy() != value.is_falsy(),
        value.is_truthy() || value.is_falsy(),
{
}

pub fn is_nan(bits: u64) -> (nan: bool)
    ensures
        nan == number_is_nan(bits),
{
    (bits & 0x7fff_ffff_ffff_ffff) > 0x7ff0_0000_0000_0000
}

pub fn is_zero(bits: u64) -> (zero: bool)
    ensures
        zero == number_is_zero(bits),
{
    (bits & 0x7fff_ffff_ffff_ffff) == 0
}

pub fn negate(bits: u64) -> (negated: u64)
    ensures
        negated == number_negate(bits),
{
    bits ^ 0x8000_0000_0000_0000
}

pub fn numbers_equal(left: u64, right: u64) -> (equal: bool)
    ensures
        equal == number_equal(left, right),
{
    !is_nan(left) && !is_nan(right) && (left == right || (is_zero(left) && is_zero(right)))
}

pub fn numbers_less(left: u64, right: u64) -> (less: bool)
    ensures
        less == number_less(left, right),
{
    if is_nan(left) || is_nan(right) {
        return false;
    }
    let left_magnitude = left & 0x7fff_ffff_ffff_ffff;
    let right_magnitude = right & 0x7fff_ffff_ffff_ffff;
    let left_negative = (left & 0x8000_0000_0000_0000) != 0;
    let right_negative = (right & 0x8000_0000_0000_0000) != 0;
    if left_negative {
        if right_negative {
            left_magnitude > right_magnitude
        } else {
            !(left_magnitude == 0 && right_magnitude == 0)
        }
    } else {
        !right_negative && left_magnitude < right_magnitude
    }
}

/// Whether `left` comes before `right` in the order of the dictionary.
pub fn texts_less(left: &str, right: &str) -> (less: bool)
    ensures
        less == text_less(left@, right@),
{
    let left_len = left.unicode_len();
    let right_len = right.unicode_len();
    let mut from: usize = 0;
    while from < left_len && from < right_len
        invariant
            left_len == left@.len(),
            right_len == right@.len(),
            from <= left_len,
            from <= right_len,
            text_less(left@, right@) == text_less_from(left@, right@, from as int),
        decreases left_len - from,
    {
        let l = left.get_char(from);
        let r = right.get_char(from);
        if l != r {
            return l < r;
        }
        from += 1;
    }
    from < right_len
}

impl Clone for Value {
    fn clone(&self) -> (copy: Value)
        ensures
            copy@ == self@,
    {
        match self {
            Value::Number(bits) => Value::Number(*bits),
            Value::Str(text) => Value::Str(text.clone()),
            Value::Bool(b) => Value::Bool(*b),
            Value::Nil => Value::Nil,
            Value::Callable(function) => Value::Callable(*function),
        }
    }
}

impl Value {
    /// Whether the value counts as true.
    pub fn is_truthy(&self) -> (truthy: bool)
        ensures
            truthy == self@.is_truthy(),
    {
        match self {
            Value::Bool(b) => *b,
            Value::Number(bits) => !is_zero(*bits),
            Value::Str(text) => text.as_str().unicode_len() > 0,
            Value::Nil => false,
            Value::Callable(_) => true,
        }
    }

    /// What kind of value this is, as diagnostics name it.
    pub fn kind_name(&self) -> (name: &'static str)
        ensures
            name@ == self@.kind_name(),
    {
        match self {
            Value::Number(_) => "a number",
            Value::Str(_) => "a string",
            Value::Bool(_) => "a boolean",
            Value::Nil => "nil",
            Value::Callable(_) => "a callable",
        }
    }

    /// Whether the value counts as false.
    pub fn is_falsy(&self) -> (falsy: bool)
        ensures
            falsy == self@.is_falsy(),
            falsy != self@.is_truthy(),
    {
        !self.is_truthy()
    }
}

/// What the evaluation of a statement leaves behind: nothing, or the
/// value of a `return` that is on its way to the call that it ends.
#[derive(Debug)]
pub enum ControlSignal {
    Normal,
    Return(Value),
}

/// The mathematical value of a [`ControlSignal`].
pub enum ControlSignalView {
    Normal,
    Return(ValueView),
}

impl View for ControlSignal {
    type V = ControlSignalView;

    open spec fn view(&self) -> ControlSignalView {
        match self {
            ControlSignal::Normal => ControlSignalView::Normal,
            ControlSignal::Return(value) => ControlSignalView::Return(value@),
        }
    }
}

} // verus!
