use vstd::prelude::*;

verus! {

/// The byte that ends a line.
pub const NEWLINE: u8 = 10;

/// The length of the first line of `s`, its newline included when it has one.
pub open spec fn first_line_len(s: Seq<u8>) -> nat
    decreases s.len(),
{
    if s.len() == 0 {
        0
    } else if s[0] == NEWLINE {
        1
    } else {
        1 + first_line_len(s.drop_first())
    }
}

/// The lines of `s`, each with its newline; the last one may lack it.
pub open spec fn lines_of(s: Seq<u8>) -> Seq<Seq<u8>>
    decreases s.len(),
    via lines_of_decreases
{
    if s.len() == 0 {
        seq![]
    } else {
        let k = first_line_len(s);
        seq![s.take(k as int)] + lines_of(s.skip(k as int))
    }
}

#[via_fn]
proof fn lines_of_decreases(s: Seq<u8>) {
    lemma_first_line_len_bounds(s);
}

/// The number of newlines in `s`.
pub open spec fn count_newlines(s: Seq<u8>) -> nat
    decreases s.len(),
{
    if s.len() == 0 {
        0
    } else {
        (if s[0] == NEWLINE { 1nat } else { 0nat }) + count_newlines(s.drop_first())
    }
}

/// The length of the part of `s` that its first `n` lines cover.
pub open spec fn head_len(s: Seq<u8>, n: nat) -> nat
    decreases s.len(),
{
    if n == 0 || s.len() == 0 {
        0
    } else if s[0] == NEWLINE {
        1 + head_len(s.drop_first(), (n - 1) as nat)
    } else {
        1 + head_len(s.drop_first(), n)
    }
}

/// The first `n` lines of `s`, as bytes.
pub open spec fn head_lines(s: Seq<u8>, n: nat) -> Seq<u8> {
    s.take(head_len(s, n) as int)
}

/// `c` is exactly `n` whole lines: nothing after them can join the head.
pub open spec fn complete(c: Seq<u8>, n: nat) -> bool {
    &&& count_newlines(c) == n
    &&& (c.len() == 0 || c.last() == NEWLINE)
}

proof fn lemma_first_line_len_bounds(s: Seq<u8>)
    ensures
        first_line_len(s) <= s.len(),
        s.len() > 0 ==> first_line_len(s) >= 1,
    decreases s.len(),
{
    if s.len() > 0 && s[0] != NEWLINE {
        lemma_first_line_len_bounds(s.drop_first());
    }
}

proof fn lemma_head_len_bound(s: Seq<u8>, n: nat)
    ensures
        head_len(s, n) <= s.len(),
    decreases s.len(),
{
    if n > 0 && s.len() > 0 {
        if s[0] == NEWLINE {
            lemma_head_len_bound(s.drop_first(), (n - 1) as nat);
        } else {
            lemma_head_len_bound(s.drop_first(), n);
        }
    }
}

proof fn lemma_count_push(s: Seq<u8>, x: u8)
    ensures
        count_newlines(s.push(x)) == count_newlines(s) + (if x == NEWLINE { 1nat } else { 0nat }),
    decreases s.len(),
{
    assert(s.push(x)[0] == if s.len() > 0 { s[0] } else { x });
    if s.len() > 0 {
        assert(s.push(x).drop_first() =~= s.drop_first().push(x));
        lemma_count_push(s.drop_first(), x);
    } else {
        assert(s.push(x).drop_first() =~= s);
        assert(count_newlines(s) == 0);
    }
}

proof fn lemma_ends_in_newline(s: Seq<u8>)
    requires
        s.len() > 0,
        s.last() == NEWLINE,
    ensures
        count_newlines(s) >= 1,
    decreases s.len(),
{
    if s[0] != NEWLINE {
        lemma_ends_in_newline(s.drop_first());
    }
}

/// Fewer than `n` newlines: the first `n` lines are all of `s`.
proof fn lemma_short(s: Seq<u8>, n: nat)
    requires
        count_newlines(s) < n,
    ensures
        head_len(s, n) == s.len(),
    decreases s.len(),
{
    if s.len() > 0 {
        if s[0] == NEWLINE {
            lemma_short(s.drop_first(), (n - 1) as nat);
        } else {
            lemma_short(s.drop_first(), n);
        }
    }
}

/// Once `n` whole lines are there, what follows them changes nothing.
proof fn lemma_complete_extend(c: Seq<u8>, t: Seq<u8>, n: nat)
    requires
        complete(c, n),
    ensures
        head_len(c + t, n) == c.len(),
    decreases c.len(),
{
    if c.len() > 0 {
        lemma_ends_in_newline(c);
        let d = c.drop_first();
        assert((c + t).drop_first() =~= d + t);
        assert(c.len() == 1 ==> d.len() == 0);
        assert(d.len() > 0 ==> d.last() == c.last());
        if c[0] == NEWLINE {
            lemma_complete_extend(d, t, (n - 1) as nat);
        } else {
            lemma_complete_extend(d, t, n);
        }
    }
}

/// Where the head stops short of the end, it is `n` whole lines.
proof fn lemma_cut_is_complete(s: Seq<u8>, n: nat)
    requires
        head_len(s, n) < s.len(),
    ensures
        complete(head_lines(s, n), n),
    decreases s.len(),
{
    let h = head_len(s, n);
    if n == 0 {
        assert(head_lines(s, n) =~= Seq::<u8>::empty());
    } else {
        let d = s.drop_first();
        let m = if s[0] == NEWLINE { (n - 1) as nat } else { n };
        lemma_cut_is_complete(d, m);
        let hd = head_lines(d, m);
        assert(head_lines(s, n) =~= seq![s[0]] + hd);
        assert((seq![s[0]] + hd).drop_first() =~= hd);
        if hd.len() > 0 {
            assert((seq![s[0]] + hd).last() == hd.last());
        }
    }
}

/// The head of `n > 0` lines is the first line and then the head of
/// `n - 1` lines of the rest.
proof fn lemma_head_len_by_line(s: Seq<u8>, n: nat)
    requires
        n > 0,
        s.len() > 0,
    ensures
        head_len(s, n) == first_line_len(s) + head_len(
            s.skip(first_line_len(s) as int),
            (n - 1) as nat,
        ),
    decreases s.len(),
{
    let d = s.drop_first();
    if s[0] == NEWLINE {
        assert(s.skip(1) =~= d);
    } else if d.len() == 0 {
        assert(s.skip(1) =~= d);
        assert(first_line_len(d) == 0);
        assert(head_len(d, n) == 0);
    } else {
        lemma_head_len_by_line(d, n);
        lemma_first_line_len_bounds(d);
        assert(first_line_len(s) == 1 + first_line_len(d));
        assert(s.skip(first_line_len(s) as int) =~= d.skip(first_line_len(d) as int));
    }
}

/// A prefix that holds the whole first line has the same first line.
proof fn lemma_first_line_of_prefix(s: Seq<u8>, m: int)
    requires
        first_line_len(s) <= m <= s.len(),
    ensures
        first_line_len(s.take(m)) == first_line_len(s),
    decreases s.len(),
{
    if s.len() > 0 && m > 0 && s[0] != NEWLINE {
        assert(s.take(m).drop_first() =~= s.drop_first().take(m - 1));
        lemma_first_line_of_prefix(s.drop_first(), m - 1);
    }
}

/// The first `n` lines, cut from `s`, are the first `min(L, n)` of the `L`
/// lines of `s`, each byte for byte with its own newline.
pub proof fn lemma_head_lines_are_first_lines(s: Seq<u8>, n: nat)
    ensures
        lines_of(head_lines(s, n)) == lines_of(s).take(
            if lines_of(s).len() < n { lines_of(s).len() as int } else { n as int },
        ),
        lines_of(head_lines(s, n)).len() == if lines_of(s).len() < n {
            lines_of(s).len()
        } else {
            n
        },
    decreases s.len(),
{
    let t = head_lines(s, n);
    if n == 0 || s.len() == 0 {
        assert(t =~= Seq::<u8>::empty());
        assert(lines_of(s).take(0) =~= Seq::<Seq<u8>>::empty());
    } else {
        let k = first_line_len(s);
        lemma_first_line_len_bounds(s);
        lemma_head_len_by_line(s, n);
        let r = s.skip(k as int);
        let m = (n - 1) as nat;
        lemma_head_len_bound(r, m);
        let h = head_len(s, n);
        lemma_first_line_of_prefix(s, h as int);
        assert(t.take(k as int) =~= s.take(k as int));
        assert(t.skip(k as int) =~= head_lines(r, m));
        lemma_head_lines_are_first_lines(r, m);
        assert(lines_of(t) == seq![s.take(k as int)] + lines_of(head_lines(r, m)));
        assert(lines_of(s) == seq![s.take(k as int)] + lines_of(r));
        let lr = lines_of(r).len();
        let cnt: int = if lr < m { lr as int } else { m as int };
        assert(lines_of(s).take(cnt + 1) =~= seq![s.take(k as int)] + lines_of(r).take(cnt));
    }
}

/// Once `n` whole lines have been read, nothing read after them joins the
/// head.
pub proof fn lemma_complete_head_is_final(c: Seq<u8>, t: Seq<u8>, n: nat)
    requires
        complete(c, n),
    ensures
        head_lines(c + t, n) == c,
{
    lemma_complete_extend(c, t, n);
    assert((c + t).take(c.len() as int) =~= c);
}

/// Cutting the head off a first part and then reading on gives the head of
/// the whole: the output does not depend on how the reads split the input.
pub proof fn lemma_head_lines_by_parts(a: Seq<u8>, b: Seq<u8>, n: nat)
    ensures
        head_lines(head_lines(a, n) + b, n) == head_lines(a + b, n),
{
    lemma_head_len_bound(a, n);
    let h = head_len(a, n);
    if h < a.len() {
        lemma_cut_is_complete(a, n);
        let c = head_lines(a, n);
        lemma_complete_head_is_final(c, b, n);
        assert(a + b =~= c + (a.skip(h as int) + b));
        lemma_complete_head_is_final(c, a.skip(h as int) + b, n);
    } else {
        assert(head_lines(a, n) =~= a);
    }
}

/// Keeps the first lines of one input that is read in chunks.
///
/// Each chunk handed to `feed` is cut where the requested number of lines
/// is reached; the caller writes the part kept and may stop reading once
/// `is_done` holds.
pub struct LineHead {
    limit: usize,
    seen: usize,
    kept: Ghost<Seq<u8>>,
}

impl LineHead {
    /// The number of lines to keep.
    pub closed spec fn limit_spec(&self) -> nat {
        self.limit as nat
    }

    /// All bytes kept so far, over every chunk.
    pub closed spec fn kept(&self) -> Seq<u8> {
        self.kept@
    }

    pub closed spec fn wf(&self) -> bool {
        &&& self.seen == count_newlines(self.kept@)
        &&& self.seen <= self.limit
        &&& self.seen == self.limit ==> (self.kept@.len() == 0 || self.kept@.last() == NEWLINE)
    }

    /// Starts an input that keeps its first `limit` lines.
    pub fn new(limit: usize) -> (r: Self)
        ensures
            r.wf(),
            r.limit_spec() == limit,
            r.kept() == Seq::<u8>::empty(),
    {
        LineHead { limit, seen: 0, kept: Ghost(Seq::empty()) }
    }

    /// Whether all requested lines are kept: nothing more will be.
    pub fn is_done(&self) -> (r: bool)
        requires
            self.wf(),
        ensures
            r == complete(self.kept(), self.limit_spec()),
    {
        self.seen == self.limit
    }

    /// Takes the next chunk of the input and returns how many of its first
    /// bytes belong to the head.
    pub fn feed(&mut self, chunk: &[u8]) -> (k: usize)
        requires
            old(self).wf(),
        ensures
            final(self).wf(),
            final(self).limit_spec() == old(self).limit_spec(),
            k <= chunk@.len(),
            final(self).kept() == old(self).kept() + chunk@.take(k as int),
            final(self).kept() == head_lines(old(self).kept() + chunk@, old(self).limit_spec()),
            k < chunk@.len() ==> complete(final(self).kept(), final(self).limit_spec()),
    {
        let ghost start = self.kept@;
        let mut k: usize = 0;
        while k < chunk.len() && self.seen < self.limit
            invariant
                k <= chunk@.len(),
                self.limit == old(self).limit,
                self.kept@ == start + chunk@.take(k as int),
                self.seen == count_newlines(self.kept@),
                self.seen <= self.limit,
                self.seen == self.limit ==> (self.kept@.len() == 0 || self.kept@.last()
                    == NEWLINE),
            decreases chunk@.len() - k,
        {
            let b = chunk[k];
            proof {
                lemma_count_push(self.kept@, b);
                assert(chunk@.take(k + 1) =~= chunk@.take(k as int).push(b));
            }
            if b == NEWLINE {
                self.seen = self.seen + 1;
            }
            self.kept = Ghost(self.kept@.push(b));
            k = k + 1;
        }
        proof {
            let n = self.limit as nat;
            let c = self.kept@;
            if self.seen < self.limit {
                assert(chunk@.take(k as int) =~= chunk@);
                lemma_short(c, n);
                assert(c.take(c.len() as int) =~= c);
            } else {
                assert(start + chunk@ =~= c + chunk@.skip(k as int));
                lemma_complete_head_is_final(c, chunk@.skip(k as int), n);
            }
        }
        k
    }
}

} // verus!
