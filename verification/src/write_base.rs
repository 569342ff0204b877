//! Writing programs as text, line by line.
use vstd::prelude::*;

verus! {

/// `n` levels of indentation: two spaces each.
pub open spec fn indent_text(n: nat) -> Seq<char> {
    Seq::new(2 * n, |i: int| ' ')
}

/// Appends `indent` levels of indentation, two spaces each, to `out`.
pub fn write_indent(indent: usize, out: &mut String)
    ensures
        final(out)@ == old(out)@ + indent_text(indent as nat),
{
    let mut i: usize = 0;
    while i < indent
        invariant
            i <= indent,
            out@ == old(out)@ + indent_text(i as nat),
        decreases indent - i,
    {
        out.append("  ");
        proof {
            reveal_strlit("  ");
        }
        i = i + 1;
        assert(out@ =~= old(out)@ + indent_text(i as nat));
    }
}

/// Something that is written as lines of text.
pub trait WriteLine {
    /// Whether `self` can be written.
    spec fn writable(&self) -> bool;

    /// The lines, each ending with a newline, at `indent` levels of indentation.
    spec fn lines(&self, indent: nat) -> Seq<char>;

    /// Appends the lines of `self`, at `indent` levels of indentation, to `out`.
    fn write_line(&self, indent: usize, out: &mut String)
        requires
            self.writable(),
            indent + 8 <= usize::MAX,
        ensures
            final(out)@ == old(out)@ + self.lines(indent as nat),
    ;
}

/// Something that has a textual form.
pub trait WriteString {
    /// Whether `self` can be written.
    spec fn writable(&self) -> bool;

    /// The textual form.
    spec fn text_of(&self) -> Seq<char>;

    /// The textual form.
    fn write_string(&self) -> (r: String)
        requires
            self.writable(),
        ensures
            r@ == self.text_of(),
    ;
}

/// Appends the lines of `t`, unindented, to `out`.
pub fn write<T: WriteLine>(t: &T, out: &mut String)
    requires
        t.writable(),
    ensures
        final(out)@ == old(out)@ + t.lines(0),
{
    t.write_line(0, out)
}

} // verus!
