//! Visible characters of one HTML line: tags (`<...>`, quotes respected) are
//! skipped, an entity (`&...;`) reads as one space, and a run of ASCII
//! whitespace reads as one space.

use vstd::prelude::*;
use crate::text::chars_of;

verus! {

/// The whitespace that collapses: space, tab, carriage return, line feed.
pub open spec fn is_blank(c: char) -> bool {
    c == ' ' || c == '\t' || c == '\r' || c == '\n'
}

/// Position just past the `>` that closes a tag whose body starts at `j`
/// (a `>` inside single or double quotes does not close it), or the end.
pub open spec fn tag_end(s: Seq<char>, j: int, in_s: bool, in_d: bool) -> int
    decreases s.len() - j,
{
    if j < 0 || j >= s.len() {
        j
    } else if s[j] == '\'' && !in_d {
        tag_end(s, j + 1, !in_s, in_d)
    } else if s[j] == '"' && !in_s {
        tag_end(s, j + 1, in_s, !in_d)
    } else if s[j] == '>' && !in_s && !in_d {
        j + 1
    } else {
        tag_end(s, j + 1, in_s, in_d)
    }
}

/// Position just past the `;` that ends an entity whose body starts at `j`, or the end.
pub open spec fn entity_end(s: Seq<char>, j: int) -> int
    decreases s.len() - j,
{
    if j < 0 || j >= s.len() {
        j
    } else if s[j] == ';' {
        j + 1
    } else {
        entity_end(s, j + 1)
    }
}

/// Position past the run of blanks that starts at `j`.
pub open spec fn blank_end(s: Seq<char>, j: int) -> int
    decreases s.len() - j,
{
    if 0 <= j < s.len() && is_blank(s[j]) { blank_end(s, j + 1) } else { j }
}

pub proof fn lemma_ends(s: Seq<char>, j: int, in_s: bool, in_d: bool)
    requires
        0 <= j <= s.len(),
    ensures
        j <= tag_end(s, j, in_s, in_d) <= s.len(),
        j <= entity_end(s, j) <= s.len(),
        j <= blank_end(s, j) <= s.len(),
    decreases s.len() - j,
{
    if j < s.len() {
        lemma_ends(s, j + 1, !in_s, in_d);
        lemma_ends(s, j + 1, in_s, !in_d);
        lemma_ends(s, j + 1, in_s, in_d);
    }
}

/// The next visible character at or after `i` and the position after it.
pub open spec fn vis_step(s: Seq<char>, i: int) -> Option<(char, int)>
    decreases s.len() - i,
{
    if i < 0 || i >= s.len() {
        None
    } else if s[i] == '<' {
        proof {
            lemma_ends(s, i + 1, false, false);
        }
        vis_step(s, tag_end(s, i + 1, false, false))
    } else if s[i] == '&' {
        Some((' ', entity_end(s, i + 1)))
    } else if is_blank(s[i]) {
        Some((' ', blank_end(s, i)))
    } else {
        Some((s[i], i + 1))
    }
}

pub proof fn lemma_vis_step(s: Seq<char>, i: int)
    requires
        0 <= i,
    ensures
        vis_step(s, i) matches Some((c, j)) ==> i < j <= s.len(),
    decreases s.len() - i,
{
    if 0 <= i < s.len() {
        lemma_ends(s, i + 1, false, false);
        lemma_ends(s, i, false, false);
        if s[i] == '<' {
            lemma_vis_step(s, tag_end(s, i + 1, false, false));
        }
    }
}

/// All visible characters from position `i` on.
pub open spec fn vis_from(s: Seq<char>, i: int) -> Seq<char>
    decreases s.len() - i,
{
    if i < 0 {
        Seq::empty()
    } else {
        match vis_step(s, i) {
            None => Seq::empty(),
            Some((c, j)) => {
                proof {
                    lemma_vis_step(s, i);
                }
                seq![c] + vis_from(s, j)
            },
        }
    }
}

/// The visible characters of `s`.
pub open spec fn visible(s: Seq<char>) -> Seq<char> {
    vis_from(s, 0)
}

/// Reader of the visible characters of a line, one at a time.
pub struct VisChars {
    s: Vec<char>,
    i: usize,
}

impl VisChars {
    /// The line being read.
    pub closed spec fn text(&self) -> Seq<char> {
        self.s@
    }

    /// How far the line has been read.
    pub closed spec fn pos(&self) -> int {
        self.i as int
    }

    pub closed spec fn wf(&self) -> bool {
        self.i <= self.s@.len()
    }

    /// What is still to be read.
    pub open spec fn rest(&self) -> Seq<char> {
        vis_from(self.text(), self.pos())
    }

    pub fn new(s: &str) -> (r: Self)
        ensures
            r.wf(),
            r.text() == s@,
            r.pos() == 0,
    {
        VisChars { s: chars_of(s), i: 0 }
    }

    /// Reader of the visible characters of `s`.
    pub fn of_chars(s: &[char]) -> (r: Self)
        ensures
            r.wf(),
            r.text() == s@,
            r.pos() == 0,
    {
        VisChars { s: crate::text::sub_vec(s, 0, s.len()), i: 0 }
    }

    /// Skip the tag whose `<` is at the current position.
    fn skip_tag(&mut self)
        requires
            old(self).wf(),
            old(self).pos() < old(self).text().len(),
        ensures
            final(self).wf(),
            final(self).text() == old(self).text(),
            final(self).pos() == tag_end(old(self).text(), old(self).pos() + 1, false, false),
    {
        let n = self.s.len();
        self.i = self.i + 1;
        let mut in_s = false;
        let mut in_d = false;
        while self.i < n
            invariant
                self.i <= n,
                n == self.s@.len(),
                self.s@ == old(self).s@,
                old(self).i + 1 <= self.i,
                tag_end(self.s@, old(self).i + 1, false, false) == tag_end(self.s@, self.i as int, in_s, in_d),
            decreases n - self.i,
        {
            let c = self.s[self.i];
            if c == '\'' && !in_d {
                in_s = !in_s;
            } else if c == '"' && !in_s {
                in_d = !in_d;
            } else if c == '>' && !in_s && !in_d {
                self.i = self.i + 1;
                return;
            }
            self.i = self.i + 1;
        }
    }

    /// Skip the entity whose `&` is at the current position.
    fn skip_entity(&mut self)
        requires
            old(self).wf(),
            old(self).pos() < old(self).text().len(),
        ensures
            final(self).wf(),
            final(self).text() == old(self).text(),
            final(self).pos() == entity_end(old(self).text(), old(self).pos() + 1),
    {
        let n = self.s.len();
        self.i = self.i + 1;
        while self.i < n
            invariant
                self.i <= n,
                n == self.s@.len(),
                self.s@ == old(self).s@,
                old(self).i + 1 <= self.i,
                entity_end(self.s@, old(self).i + 1) == entity_end(self.s@, self.i as int),
            decreases n - self.i,
        {
            if self.s[self.i] == ';' {
                self.i = self.i + 1;
                return;
            }
            self.i = self.i + 1;
        }
    }

    /// The character at the current position, taken as it is.
    fn next_char(&mut self) -> (r: Option<char>)
        requires
            old(self).wf(),
        ensures
            final(self).wf(),
            final(self).text() == old(self).text(),
            old(self).pos() < old(self).text().len() ==> r == Some(old(self).text()[old(self).pos()])
                && final(self).pos() == old(self).pos() + 1,
            old(self).pos() >= old(self).text().len() ==> r is None && final(self).pos() == old(self).pos(),
    {
        if self.i >= self.s.len() {
            return None;
        }
        let c = self.s[self.i];
        self.i = self.i + 1;
        Some(c)
    }

    /// The next visible character, if any.
    pub fn next(&mut self) -> (r: Option<char>)
        requires
            old(self).wf(),
        ensures
            final(self).wf(),
            final(self).text() == old(self).text(),
            match vis_step(old(self).text(), old(self).pos()) {
                None => r is None && final(self).rest() == Seq::<char>::empty(),
                Some((c, j)) => r == Some(c) && final(self).pos() == j,
            },
            r is None ==> old(self).rest().len() == 0 && final(self).rest().len() == 0,
            r matches Some(c) ==> old(self).rest() == seq![c] + final(self).rest(),
    {
        proof {
            lemma_vis_step(self.s@, self.i as int);
        }
        let n = self.s.len();
        while self.i < n
            invariant
                self.wf(),
                n == self.s@.len(),
                self.s@ == old(self).s@,
                vis_step(self.s@, old(self).i as int) == vis_step(self.s@, self.i as int),
            decreases n - self.i,
        {
            let c = self.s[self.i];
            if c == '<' {
                proof {
                    lemma_ends(self.s@, self.i + 1, false, false);
                }
                self.skip_tag();
                continue;
            } else if c == '&' {
                self.skip_entity();
                return Some(' ');
            } else if c == ' ' || c == '\t' || c == '\r' || c == '\n' {
                let ghost start = self.i as int;
                while self.i < n && (self.s[self.i] == ' ' || self.s[self.i] == '\t' || self.s[self.i] == '\r'
                    || self.s[self.i] == '\n')
                    invariant
                        self.wf(),
                        n == self.s@.len(),
                        self.s@ == old(self).s@,
                        start <= self.i,
                        vis_step(self.s@, old(self).i as int) == Some((' ', blank_end(self.s@, start))),
                        blank_end(self.s@, start) == blank_end(self.s@, self.i as int),
                    decreases n - self.i,
                {
                    self.i = self.i + 1;
                }
                return Some(' ');
            } else {
                return self.next_char();
            }
        }
        None
    }
}

/// The visible characters of `s`, all at once.
pub fn visible_vec(s: &str) -> (v: Vec<char>)
    ensures
        v@ == visible(s@),
{
    let mut it = VisChars::new(s);
    let mut v: Vec<char> = Vec::new();
    loop
        invariant
            it.wf(),
            it.text() == s@,
            visible(s@) == v@ + it.rest(),
        decreases it.text().len() - it.pos(),
    {
        let ghost p = it.pos();
        proof {
            lemma_vis_step(s@, p);
        }
        match it.next() {
            None => {
                assert(v@ + it.rest() =~= v@);
                return v;
            },
            Some(c) => {
                v.push(c);
                assert(v@.drop_last() + vis_from(s@, p) =~= v@ + it.rest());
            },
        }
    }
}

} // verus!
