use vstd::prelude::*;

verus! {

/// `pattern` occurs contiguously somewhere in `s`.
pub open spec fn has_substring(s: Seq<char>, pattern: Seq<char>) -> bool {
    exists|i: int|
        0 <= i && i + pattern.len() <= s.len() && #[trigger] s.subrange(i, i + pattern.len()) == pattern
}

/// A fluent assertion helper: `expect(x).equals(y)`, `expect(b).is_true()`,
/// and so on. Each check is stated as a precondition, so a verified caller
/// discharges the whole chain statically and nothing remains to fail at run
/// time.
pub struct Assert<T> {
    v: T,
}

/// Wrap a value so that fluent assertions can be chained onto it.
pub fn expect<T>(v: T) -> (a: Assert<T>)
    ensures
        a.value() == v,
{
    Assert { v }
}

impl<T> Assert<T> {
    pub closed spec fn value(&self) -> T {
        self.v
    }

    /// The wrapped value is exactly `other`.
    pub fn equals(self, other: T)
        requires
            self.value() == other,
    {
    }

    /// The wrapped value is anything but `other`.
    pub fn not_equals(self, other: T)
        requires
            self.value() != other,
    {
    }
}

impl Assert<bool> {
    /// The wrapped condition holds.
    pub fn is_true(self)
        requires
            self.value(),
    {
    }

    /// The wrapped condition fails.
    pub fn is_false(self)
        requires
            !self.value(),
    {
    }
}

impl<'a> Assert<&'a str> {
    /// The wrapped string has `pattern` as a substring.
    pub fn contains(self, pattern: &str)
        requires
            has_substring(self.value()@, pattern@),
    {
    }
}

impl Assert<String> {
    /// The wrapped string has `pattern` as a substring.
    pub fn contains(self, pattern: &str)
        requires
            has_substring(self.value()@, pattern@),
    {
    }
}

} // verus!
