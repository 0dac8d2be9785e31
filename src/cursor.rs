//! A backtrackable scanner over the characters of a string slice.

use vstd::prelude::*;
use vstd::string::*;

verus! {

/// End of the maximal run, starting at `i`, of characters that satisfy `p`.
pub open spec fn run_end(s: Seq<char>, p: spec_fn(char) -> bool, i: nat) -> nat
    decreases s.len() - i,
{
    if i < s.len() && p(s[i as int]) {
        run_end(s, p, i + 1)
    } else {
        i
    }
}

/// A run of `p` that starts at `j` and stops at `n` ends at `n`.
pub proof fn lemma_run_end(s: Seq<char>, p: spec_fn(char) -> bool, j: nat, n: nat)
    requires
        j <= n <= s.len(),
        forall|i: int| j <= i < n ==> p(#[trigger] s[i]),
        n < s.len() ==> !p(s[n as int]),
    ensures
        run_end(s, p, j) == n,
    decreases n - j,
{
    if j < n {
        lemma_run_end(s, p, j + 1, n);
    }
}

/// A run never ends before it starts, nor after the end of `s`.
pub proof fn lemma_run_end_bounds(s: Seq<char>, p: spec_fn(char) -> bool, i: nat)
    requires
        i <= s.len(),
    ensures
        i <= run_end(s, p, i) <= s.len(),
    decreases s.len() - i,
{
    if i < s.len() && p(s[i as int]) {
        lemma_run_end_bounds(s, p, i + 1);
    }
}

/// Every character of a run satisfies `p`, and the one that stops it does
/// not.
pub proof fn lemma_run_end_props(s: Seq<char>, p: spec_fn(char) -> bool, i: nat)
    requires
        i <= s.len(),
    ensures
        forall|j: int| i <= j < run_end(s, p, i) ==> p(#[trigger] s[j]),
        run_end(s, p, i) < s.len() ==> !p(s[run_end(s, p, i) as int]),
    decreases s.len() - i,
{
    if i < s.len() && p(s[i as int]) {
        lemma_run_end_props(s, p, i + 1);
    }
}

/// A scanner over the characters of a string slice.
///
/// Its view is the text that is left to read. Saving a copy of the cursor
/// before a tentative read and restoring it afterwards undoes the read.
#[derive(Debug, Clone, Copy)]
pub struct StrCursor<'a> {
    rest: &'a str,
}

impl<'a> View for StrCursor<'a> {
    type V = Seq<char>;

    closed spec fn view(&self) -> Seq<char> {
        self.rest@
    }
}

impl<'a> StrCursor<'a> {
    /// Constructs a cursor at the start of `input`.
    pub fn new(input: &'a str) -> (r: Self)
        ensures
            r@ == input@,
    {
        StrCursor { rest: input }
    }

    /// Returns the text that is left to read.
    pub fn remaining(&self) -> (r: &'a str)
        ensures
            r@ == self@,
    {
        self.rest
    }

    /// Reads the next character, if any.
    pub fn next(&mut self) -> (r: Option<char>)
        ensures
            old(self)@.len() == 0 ==> r is None && final(self)@ == old(self)@,
            old(self)@.len() > 0 ==> r == Some(old(self)@[0]) && final(self)@
                == old(self)@.drop_first(),
    {
        let n = self.rest.unicode_len();
        if n == 0 {
            None
        } else {
            let c = self.rest.get_char(0);
            self.rest = self.rest.substring_char(1, n);
            assert(self.rest@ =~= old(self)@.drop_first());
            Some(c)
        }
    }

    /// Reads characters as long as `f` holds of them, and returns them.
    pub fn read_while<F: Fn(char) -> bool>(&mut self, f: F) -> (r: &'a str)
        requires
            forall|c: char| f.requires((c,)),
        ensures
            r@.len() <= old(self)@.len(),
            r@ == old(self)@.take(r@.len() as int),
            final(self)@ == old(self)@.skip(r@.len() as int),
            forall|i: int| 0 <= i < r@.len() ==> f.ensures((old(self)@[i],), true),
            r@.len() < old(self)@.len() ==> f.ensures((old(self)@[r@.len() as int],), false),
    {
        let n = self.rest.unicode_len();
        let mut i: usize = 0;
        let mut stop = false;
        while i < n && !stop
            invariant
                n == self.rest@.len(),
                self.rest@ == old(self)@,
                i <= n,
                forall|c: char| f.requires((c,)),
                forall|j: int| 0 <= j < i ==> f.ensures((self.rest@[j],), true),
                stop ==> i < n && f.ensures((self.rest@[i as int],), false),
            decreases n - i + (if stop { 0int } else { 1int }),
        {
            let c = self.rest.get_char(i);
            if f(c) {
                i = i + 1;
            } else {
                stop = true;
            }
        }
        let r = self.rest.substring_char(0, i);
        self.rest = self.rest.substring_char(i, n);
        r
    }

    /// Reads characters up to the first one of which `f` holds, and returns
    /// them.
    pub fn read_until<F: Fn(char) -> bool>(&mut self, f: F) -> (r: &'a str)
        requires
            forall|c: char| f.requires((c,)),
        ensures
            r@.len() <= old(self)@.len(),
            r@ == old(self)@.take(r@.len() as int),
            final(self)@ == old(self)@.skip(r@.len() as int),
            forall|i: int| 0 <= i < r@.len() ==> f.ensures((old(self)@[i],), false),
            r@.len() < old(self)@.len() ==> f.ensures((old(self)@[r@.len() as int],), true),
    {
        let n = self.rest.unicode_len();
        let mut i: usize = 0;
        let mut stop = false;
        while i < n && !stop
            invariant
                n == self.rest@.len(),
                self.rest@ == old(self)@,
                i <= n,
                forall|c: char| f.requires((c,)),
                forall|j: int| 0 <= j < i ==> f.ensures((self.rest@[j],), false),
                stop ==> i < n && f.ensures((self.rest@[i as int],), true),
            decreases n - i + (if stop { 0int } else { 1int }),
        {
            let c = self.rest.get_char(i);
            if f(c) {
                stop = true;
            } else {
                i = i + 1;
            }
        }
        let r = self.rest.substring_char(0, i);
        self.rest = self.rest.substring_char(i, n);
        r
    }

    /// Reads characters up to and including the first one of which `f`
    /// holds, or to the end, and returns them.
    pub fn read_until_included<F: Fn(char) -> bool>(&mut self, f: F) -> (r: &'a str)
        requires
            forall|c: char| f.requires((c,)),
        ensures
            r@.len() <= old(self)@.len(),
            r@ == old(self)@.take(r@.len() as int),
            final(self)@ == old(self)@.skip(r@.len() as int),
            forall|i: int| 0 <= i < r@.len() - 1 ==> f.ensures((old(self)@[i],), false),
            r@.len() < old(self)@.len() ==> r@.len() > 0 && f.ensures(
                (old(self)@[r@.len() - 1],),
                true,
            ),
            r@.len() == 0 ==> old(self)@.len() == 0,
    {
        let n = self.rest.unicode_len();
        let mut i: usize = 0;
        let mut found = false;
        while i < n && !found
            invariant
                n == self.rest@.len(),
                self.rest@ == old(self)@,
                i <= n,
                forall|c: char| f.requires((c,)),
                forall|j: int| 0 <= j < i - 1 ==> f.ensures((self.rest@[j],), false),
                i > 0 ==> f.ensures((self.rest@[i - 1],), found),
                found ==> i > 0,
            decreases n - i,
        {
            let c = self.rest.get_char(i);
            found = f(c);
            i = i + 1;
        }
        let r = self.rest.substring_char(0, i);
        self.rest = self.rest.substring_char(i, n);
        r
    }
}

} // verus!
