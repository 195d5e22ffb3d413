use vstd::prelude::*;
use vstd::std_specs::iter::IteratorSpec;

verus! {

/// `Some(s[p])` when `p` indexes `s`, else `None`.
pub open spec fn char_at(s: Seq<char>, p: int) -> Option<char> {
    if 0 <= p < s.len() {
        Some(s[p])
    } else {
        None
    }
}

/// The line reported at position `p` of `s`: the first line is `1`, and
/// every newline at or before `p` starts a new one.
pub open spec fn line_at(s: Seq<char>, p: int) -> int
    decreases p + 1,
{
    if p < 0 {
        1
    } else if p < s.len() && s[p] == '\n' {
        line_at(s, p - 1) + 1
    } else {
        line_at(s, p - 1)
    }
}

/// The column reported at position `p` of `s`: a newline is column `0` of
/// the line it starts, and every other character one more than the
/// character before it (the first character of the text is column `1`, as
/// is the start of an empty text).
pub open spec fn column_at(s: Seq<char>, p: int) -> int
    decreases p + 1,
{
    if p < 0 {
        0
    } else if p < s.len() {
        if s[p] == '\n' {
            0
        } else {
            column_at(s, p - 1) + 1
        }
    } else if p == 0 {
        1
    } else {
        column_at(s, p - 1)
    }
}

/// Line and column stay within the position and the length of the text.
pub proof fn lemma_position_bounds(s: Seq<char>, p: int)
    requires
        -1 <= p,
    ensures
        1 <= line_at(s, p) <= p + 2,
        line_at(s, p) <= s.len() + 1,
        0 <= column_at(s, p) <= p + 1,
        column_at(s, p) <= s.len() + 1,
    decreases p + 1,
{
    if p >= 0 {
        lemma_position_bounds(s, p - 1);
    }
}

/// A cursor over the characters of a source text, with line and column
/// bookkeeping.
pub struct CharsNavigator {
    chars: Vec<char>,
    pos: usize,
    line: u32,
    column: u32,
}

impl CharsNavigator {
    /// The characters navigated over.
    pub closed spec fn text(&self) -> Seq<char> {
        self.chars@
    }

    /// The index of the current character (`text().len()` at the end).
    pub closed spec fn pos(&self) -> int {
        self.pos as int
    }

    /// Positions are never negative.
    pub broadcast proof fn lemma_pos_nonneg(&self)
        ensures
            #[trigger] self.pos() >= 0,
    {
    }

    pub closed spec fn wf(&self) -> bool {
        &&& self.chars@.len() < u32::MAX
        &&& self.pos <= self.chars@.len()
        &&& self.line == line_at(self.chars@, self.pos as int)
        &&& self.column == column_at(self.chars@, self.pos as int)
    }

    /// The cursor stays within the text, whose length fits a `u32`.
    pub proof fn lemma_wf(&self)
        requires
            self.wf(),
        ensures
            0 <= self.pos() <= self.text().len() < u32::MAX,
    {
    }

    /// A navigator on the first character of `source`.
    pub fn new(source: &str) -> (r: Self)
        requires
            source@.len() < u32::MAX,
        ensures
            r.wf(),
            r.text() == source@,
            r.pos() == 0,
    {
        broadcast use vstd::string::group_string_axioms;

        let mut chars: Vec<char> = Vec::new();
        let mut it = source.chars();
        loop
            invariant_except_break
                chars@ + it.remaining() == source@,
                it.decrease() is Some,
            ensures
                chars@ == source@,
            decreases it.decrease()->0,
        {
            match it.next() {
                Some(c) => {
                    chars.push(c);
                },
                None => {
                    assert(chars@ + it.remaining() =~= chars@);
                    break ;
                },
            }
        }
        let (line, column): (u32, u32) = if chars.len() > 0 && chars[0] == '\n' {
            (2, 0)
        } else {
            (1, 1)
        };
        assert(line_at(chars@, -1) == 1 && column_at(chars@, -1) == 0);
        CharsNavigator { chars: chars, pos: 0, line: line, column: column }
    }

    /// Moves to the next character and returns it (`None` at the end).
    pub fn next(&mut self) -> (r: Option<char>)
        requires
            old(self).wf(),
        ensures
            final(self).wf(),
            final(self).text() == old(self).text(),
            final(self).pos() == if old(self).pos() < old(self).text().len() {
                old(self).pos() + 1
            } else {
                old(self).pos()
            },
            r == char_at(final(self).text(), final(self).pos()),
    {
        if self.pos < self.chars.len() {
            proof {
                lemma_position_bounds(self.chars@, self.pos as int);
            }
            self.pos = self.pos + 1;
            self.check_line_column();
        }
        self.current()
    }

    /// The character after the current one, without moving.
    pub fn peek(&self) -> (r: Option<char>)
        requires
            self.wf(),
        ensures
            r == char_at(self.text(), self.pos() + 1),
    {
        if self.pos + 1 < self.chars.len() {
            Some(self.chars[self.pos + 1])
        } else {
            None
        }
    }

    /// Moves to the next character only when it is `c`; tells whether it moved.
    pub fn next_if_match(&mut self, c: char) -> (r: bool)
        requires
            old(self).wf(),
        ensures
            final(self).wf(),
            final(self).text() == old(self).text(),
            r == (char_at(old(self).text(), old(self).pos() + 1) == Some(c)),
            final(self).pos() == if r {
                old(self).pos() + 1
            } else {
                old(self).pos()
            },
    {
        if self.pos + 1 < self.chars.len() && self.chars[self.pos + 1] == c {
            proof {
                lemma_position_bounds(self.chars@, self.pos as int);
            }
            self.pos = self.pos + 1;
            self.check_line_column();
            true
        } else {
            false
        }
    }

    /// The current character (`None` at the end).
    pub fn current(&self) -> (r: Option<char>)
        requires
            self.wf(),
        ensures
            r == char_at(self.text(), self.pos()),
    {
        if self.pos < self.chars.len() {
            Some(self.chars[self.pos])
        } else {
            None
        }
    }

    /// Whether every character has been passed.
    pub fn is_at_end(&self) -> (r: bool)
        requires
            self.wf(),
        ensures
            r == (self.pos() >= self.text().len()),
    {
        self.pos >= self.chars.len()
    }

    /// The current line.
    pub fn line(&self) -> (r: u32)
        requires
            self.wf(),
        ensures
            r == line_at(self.text(), self.pos()),
    {
        self.line
    }

    /// The current column.
    pub fn column(&self) -> (r: u32)
        requires
            self.wf(),
        ensures
            r == column_at(self.text(), self.pos()),
    {
        self.column
    }

    /// Brings line and column up to date after a move onto `pos`.
    fn check_line_column(&mut self)
        requires
            old(self).chars@.len() < u32::MAX,
            1 <= old(self).pos <= old(self).chars@.len(),
            old(self).line == line_at(old(self).chars@, old(self).pos - 1),
            old(self).column == column_at(old(self).chars@, old(self).pos - 1),
            old(self).line <= old(self).pos + 1,
            old(self).column <= old(self).pos,
        ensures
            final(self).wf(),
            final(self).chars == old(self).chars,
            final(self).pos == old(self).pos,
    {
        if self.pos < self.chars.len() {
            if self.chars[self.pos] == '\n' {
                self.line = self.line + 1;
                self.column = 0;
            } else {
                self.column = self.column + 1;
            }
        }
    }
}

} // verus!
