//! Output buffer with the newline rules of canonical QuizFold text.
use vstd::prelude::*;
use vstd::string::{StrSliceExecFns, StringExecFns};

verus! {

/// The text ends with a line break.
pub open spec fn ends_with_newline(s: Seq<char>) -> bool {
    s.len() >= 1 && s[s.len() - 1] == '\n'
}

/// The text ends with two line breaks, that is, with a blank line.
pub open spec fn ends_with_blank_line(s: Seq<char>) -> bool {
    s.len() >= 2 && s[s.len() - 1] == '\n' && s[s.len() - 2] == '\n'
}

/// Ends the current line unless it is already ended.
pub open spec fn newline_v(s: Seq<char>) -> Seq<char> {
    if ends_with_newline(s) {
        s
    } else {
        s.push('\n')
    }
}

/// Ends the current line and leaves one blank line, unless there is one.
pub open spec fn blank_line_v(s: Seq<char>) -> Seq<char> {
    let t = newline_v(s);
    if ends_with_blank_line(t) {
        t
    } else {
        t.push('\n')
    }
}

/// The text without its trailing line breaks.
pub open spec fn strip_trailing_newlines(s: Seq<char>) -> Seq<char>
    decreases s.len(),
{
    if s.len() > 0 && s[s.len() - 1] == '\n' {
        strip_trailing_newlines(s.drop_last())
    } else {
        s
    }
}

/// The finished text: trailing line breaks collapse into one, and an empty
/// text stays empty.
pub open spec fn finish_v(s: Seq<char>) -> Seq<char> {
    let t = strip_trailing_newlines(s);
    if t.len() == 0 {
        t
    } else {
        t.push('\n')
    }
}

/// Collects output text; remembers whether it ends with one or two line breaks.
pub struct Writer {
    output: String,
    ends_newline: bool,
    ends_blank: bool,
}

impl View for Writer {
    type V = Seq<char>;

    closed spec fn view(&self) -> Seq<char> {
        self.output@
    }
}

impl Writer {
    pub closed spec fn wf(&self) -> bool {
        &&& self.ends_newline == ends_with_newline(self.output@)
        &&& self.ends_blank == ends_with_blank_line(self.output@)
    }

    /// An empty writer.
    pub fn new() -> (r: Writer)
        ensures
            r.wf(),
            r@ == Seq::<char>::empty(),
    {
        Writer { output: String::new(), ends_newline: false, ends_blank: false }
    }

    /// Appends text.
    pub fn push(&mut self, value: &str)
        requires
            old(self).wf(),
        ensures
            final(self).wf(),
            final(self)@ == old(self)@ + value@,
    {
        let n = value.unicode_len();
        let ghost s = self.output@;
        if n == 0 {
            assert(s + value@ =~= s);
            return;
        }
        let last = value.get_char(n - 1);
        if n == 1 {
            self.ends_blank = last == '\n' && self.ends_newline;
        } else {
            let before = value.get_char(n - 2);
            self.ends_blank = last == '\n' && before == '\n';
        }
        self.ends_newline = last == '\n';
        self.output.append(value);
        proof {
            let t = self.output@;
            assert(t.len() == s.len() + n);
            assert(t[t.len() - 1] == value@[n - 1]);
            if n >= 2 {
                assert(t[t.len() - 2] == value@[n - 2]);
            } else if s.len() >= 1 {
                assert(t[t.len() - 2] == s[s.len() - 1]);
            }
        }
    }

    /// Ends the current line unless it is already ended.
    pub fn newline(&mut self)
        requires
            old(self).wf(),
        ensures
            final(self).wf(),
            final(self)@ == newline_v(old(self)@),
    {
        if !self.ends_newline {
            proof {
                reveal_strlit("\n");
                assert("\n"@ =~= seq!['\n']);
            }
            self.push("\n");
        }
    }

    /// Ends the current line and leaves one blank line, unless there is one.
    pub fn blank_line(&mut self)
        requires
            old(self).wf(),
        ensures
            final(self).wf(),
            final(self)@ == blank_line_v(old(self)@),
    {
        self.newline();
        if !self.ends_blank {
            proof {
                reveal_strlit("\n");
                assert("\n"@ =~= seq!['\n']);
            }
            self.push("\n");
        }
    }

    /// The text with its trailing line breaks collapsed into one.
    pub fn finish(self) -> (r: String)
        requires
            self.wf(),
        ensures
            r@ == finish_v(self@),
    {
        let text = self.output.as_str();
        let len = text.unicode_len();
        let mut end = len;
        assert(text@.subrange(0, len as int) =~= text@);
        while end > 0 && text.get_char(end - 1) == '\n'
            invariant
                end <= len,
                len == text@.len(),
                strip_trailing_newlines(text@.subrange(0, end as int)) == strip_trailing_newlines(
                    text@,
                ),
            decreases end,
        {
            assert(text@.subrange(0, end as int).drop_last() =~= text@.subrange(0, end - 1));
            end = end - 1;
        }
        let mut r = String::from_str(text.substring_char(0, end));
        if end > 0 {
            proof {
                reveal_strlit("\n");
                assert("\n"@ =~= seq!['\n']);
            }
            r.append("\n");
        }
        r
    }
}

} // verus!
