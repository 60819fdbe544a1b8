//! The reference character-stream cursor: a mutable view over a buffer of
//! characters that shrinks as tokens are consumed, together with the marker
//! type that makes O(1) backtracking possible.

use vstd::prelude::*;

verus! {

/// The number of bytes the UTF-8 encoding of `c` occupies.
pub open spec fn char_width(c: char) -> nat {
    if (c as u32) < 0x80 {
        1
    } else if (c as u32) < 0x800 {
        2
    } else if (c as u32) < 0x10000 {
        3
    } else {
        4
    }
}

/// The number of bytes the UTF-8 encoding of the whole sequence occupies.
pub open spec fn byte_len(s: Seq<char>) -> nat
    decreases s.len(),
{
    if s.len() == 0 {
        0
    } else {
        char_width(s[0]) + byte_len(s.skip(1))
    }
}

pub proof fn lemma_byte_len_concat(a: Seq<char>, b: Seq<char>)
    ensures
        byte_len(a + b) == byte_len(a) + byte_len(b),
    decreases a.len(),
{
    if a.len() == 0 {
        assert(a + b =~= b);
    } else {
        assert((a + b).skip(1) =~= a.skip(1) + b);
        assert((a + b)[0] == a[0]);
        lemma_byte_len_concat(a.skip(1), b);
    }
}

pub proof fn lemma_byte_len_bound(s: Seq<char>)
    ensures
        byte_len(s) <= 4 * s.len(),
    decreases s.len(),
{
    if s.len() > 0 {
        lemma_byte_len_bound(s.skip(1));
    }
}

/// Every character occupies at least one byte.
pub proof fn lemma_byte_len_ge_len(s: Seq<char>)
    ensures
        byte_len(s) >= s.len(),
    decreases s.len(),
{
    if s.len() > 0 {
        lemma_byte_len_ge_len(s.skip(1));
    }
}

/// Splitting a sequence at any point splits its byte length.
pub proof fn lemma_byte_len_split(s: Seq<char>, i: int)
    requires
        0 <= i <= s.len(),
    ensures
        byte_len(s) == byte_len(s.take(i)) + byte_len(s.skip(i)),
{
    assert(s.take(i) + s.skip(i) =~= s);
    lemma_byte_len_concat(s.take(i), s.skip(i));
}

pub proof fn lemma_byte_len_snoc(s: Seq<char>, c: char)
    ensures
        byte_len(s.push(c)) == byte_len(s) + char_width(c),
{
    assert(s.push(c) =~= s + seq![c]);
    lemma_byte_len_concat(s, seq![c]);
    assert(byte_len(seq![c]) == char_width(c)) by {
        let one = seq![c];
        assert(one.len() == 1 && one[0] == c);
        assert(one.skip(1).len() == 0);
        assert(byte_len(one.skip(1)) == 0);
        assert(byte_len(one) == char_width(one[0]) + byte_len(one.skip(1)));
    }
}

/// The byte length of any contiguous piece is at most that of the whole.
pub proof fn lemma_byte_len_subrange_le(s: Seq<char>, a: int, b: int)
    requires
        0 <= a <= b <= s.len(),
    ensures
        byte_len(s.subrange(a, b)) <= byte_len(s),
{
    lemma_byte_len_split(s, a);
    lemma_byte_len_split(s.skip(a), b - a);
    assert(s.skip(a).take(b - a) =~= s.subrange(a, b));
}

/// Computes the UTF-8 width of a single character.
pub fn utf8_width(c: char) -> (w: usize)
    ensures
        w == char_width(c),
{
    let u = c as u32;
    if u < 0x80 {
        1
    } else if u < 0x800 {
        2
    } else if u < 0x10000 {
        3
    } else {
        4
    }
}

/// How many leading characters a diagnostic context renders at most.
pub const CONTEXT_CHARS: usize = 5;

/// A character as it appears inside a quoted diagnostic snippet: quotes and
/// backslashes get a backslash escape, everything else stands as itself.
pub open spec fn quoted_char(c: char) -> Seq<char> {
    if c == '"' || c == '\\' {
        seq!['\\', c]
    } else {
        seq![c]
    }
}

/// The body of a quoted diagnostic snippet: each character escaped.
pub open spec fn quote_body(s: Seq<char>) -> Seq<char>
    decreases s.len(),
{
    if s.len() == 0 {
        Seq::empty()
    } else {
        quoted_char(s[0]) + quote_body(s.skip(1))
    }
}

/// The full diagnostic rendering of stream content `s`: its first characters
/// (at most `CONTEXT_CHARS` of them), escaped, between double quotes.
pub open spec fn snippet(s: Seq<char>) -> Seq<char> {
    seq!['"'] + quote_body(
        if s.len() <= CONTEXT_CHARS {
            s
        } else {
            s.take(CONTEXT_CHARS as int)
        },
    ) + seq!['"']
}

proof fn lemma_quote_body_snoc(s: Seq<char>, c: char)
    ensures
        quote_body(s.push(c)) == quote_body(s) + quoted_char(c),
    decreases s.len(),
{
    let l = s.push(c);
    if s.len() == 0 {
        assert(l.skip(1) =~= Seq::<char>::empty());
        assert(l[0] == c);
        assert(quote_body(Seq::<char>::empty()) == Seq::<char>::empty());
        assert(quote_body(l) =~= quoted_char(c) + Seq::<char>::empty());
        assert(quote_body(l) =~= quote_body(s) + quoted_char(c));
    } else {
        assert(l.skip(1) =~= s.skip(1).push(c));
        lemma_quote_body_snoc(s.skip(1), c);
        assert(l[0] == s[0]);
        assert(quoted_char(s[0]) + (quote_body(s.skip(1)) + quoted_char(c)) =~= (quoted_char(s[0])
            + quote_body(s.skip(1))) + quoted_char(c));
        assert(quote_body(l) =~= quote_body(s) + quoted_char(c));
    }
}

/// Relies on `String: FromIterator<char>` from std: collecting characters
/// yields the string made of exactly those characters, in order.
#[verifier::external_body]
fn chars_to_string(v: &Vec<char>) -> (r: String)
    ensures
        r@ == v@,
{
    v.iter().collect()
}

/// Compares two slices by content.
pub fn eq_slice(a: &Vec<char>, b: &Vec<char>) -> (r: bool)
    ensures
        r == (a@ == b@),
{
    if a.len() != b.len() {
        return false;
    }
    let mut i: usize = 0;
    while i < a.len()
        invariant
            i <= a@.len(),
            a@.len() == b@.len(),
            forall|j: int| 0 <= j < i ==> a@[j] == b@[j],
        decreases a@.len() - i,
    {
        if a[i] != b[i] {
            return false;
        }
        i = i + 1;
    }
    proof {
        assert(a@ =~= b@);
    }
    true
}

/// Converts a slice into the host slice type; for a character stream the two
/// coincide, so the conversion is the identity.
pub fn into_slice(s: Vec<char>) -> (r: Vec<char>)
    ensures
        r@ == s@,
{
    s
}

/// One way the slice predicate `f` can decide `r` on content `s`: some slice
/// holding exactly `s` on which a call of `f` may return `r`.
pub open spec fn slice_check<F: Fn(&Vec<char>) -> bool>(f: F, s: Seq<char>, r: bool) -> bool {
    exists|v: Vec<char>| #[trigger] call_ensures(f, (&v,), r) && v@ == s
}

/// Computes the UTF-8 byte length of `buf[from..to]`.
fn range_width(buf: &Vec<char>, from: usize, to: usize) -> (w: usize)
    requires
        from <= to <= buf@.len(),
        byte_len(buf@) <= usize::MAX,
    ensures
        w == byte_len(buf@.subrange(from as int, to as int)),
{
    let mut w: usize = 0;
    let mut i: usize = from;
    proof {
        assert(buf@.subrange(from as int, from as int) =~= Seq::<char>::empty());
    }
    while i < to
        invariant
            from <= i <= to <= buf@.len(),
            byte_len(buf@) <= usize::MAX,
            w == byte_len(buf@.subrange(from as int, i as int)),
        decreases to - i,
    {
        proof {
            assert(buf@.subrange(from as int, i + 1) =~= buf@.subrange(
                from as int,
                i as int,
            ).push(buf@[i as int]));
            lemma_byte_len_snoc(buf@.subrange(from as int, i as int), buf@[i as int]);
            lemma_byte_len_subrange_le(buf@, from as int, i + 1);
        }
        let cw = utf8_width(buf[i]);
        w = w + cw;
        i = i + 1;
    }
    w
}

/// A saved position in a `Text` cursor. Copyable and compared purely by
/// position: the diagnostic hint given to `mark` never enters the marker.
#[derive(Clone, Copy, PartialEq, Eq, Structural, Debug)]
pub struct Marker {
    /// Position counted in characters from the start of the buffer.
    pub pos: usize,
    /// The same position counted in bytes of the UTF-8 encoding.
    pub byte_pos: usize,
}

/// A cursor over a buffer of characters. Consuming operations advance `pos`
/// by whole characters and `byte_pos` by each character's encoded width;
/// rewinding to a marker is a single assignment.
pub struct Text {
    pub buf: Vec<char>,
    /// Index in characters of the next unconsumed character.
    pub pos: usize,
    /// Byte offset into the UTF-8 encoding of `buf` matching `pos`.
    pub byte_pos: usize,
}

impl Text {
    /// Well-formedness: the position lies inside the buffer, the byte offset
    /// agrees with it, and the whole buffer's byte length fits the machine.
    pub open spec fn wf(self) -> bool {
        &&& self.pos <= self.buf@.len()
        &&& self.byte_pos == byte_len(self.buf@.take(self.pos as int))
        &&& byte_len(self.buf@) <= usize::MAX
    }

    /// The unconsumed part of the stream.
    pub open spec fn remaining(self) -> Seq<char> {
        self.buf@.skip(self.pos as int)
    }

    /// The marker that `mark` returns at the current position.
    pub open spec fn marker_at(self) -> Marker {
        Marker { pos: self.pos, byte_pos: self.byte_pos }
    }

    /// A marker usable with this cursor: it denotes a position inside the
    /// buffer and carries the matching byte offset.
    pub open spec fn valid_marker(self, m: Marker) -> bool {
        &&& m.pos <= self.buf@.len()
        &&& m.byte_pos == byte_len(self.buf@.take(m.pos as int))
    }

    /// The cursor as it stands after rewinding to `m`.
    pub open spec fn rewound(self, m: Marker) -> Text {
        Text { pos: m.pos, byte_pos: m.byte_pos, ..self }
    }

    /// Creates a cursor at the start of `buf`.
    pub fn new(buf: Vec<char>) -> (t: Text)
        requires
            buf@.len() * 4 <= usize::MAX,
        ensures
            t.wf(),
            t.buf@ == buf@,
            t.pos == 0,
            t.byte_pos == 0,
            t.remaining() == buf@,
    {
        proof {
            lemma_byte_len_bound(buf@);
            assert(buf@.take(0) =~= Seq::<char>::empty());
            assert(buf@.skip(0) =~= buf@);
        }
        Text { buf, pos: 0, byte_pos: 0 }
    }

    /// Returns the next token without consuming it; `None` at end of stream.
    pub fn token(&self) -> (r: Option<char>)
        requires
            self.wf(),
        ensures
            r == (if self.remaining().len() == 0 {
                None::<char>
            } else {
                Some(self.remaining()[0])
            }),
    {
        if self.pos < self.buf.len() {
            Some(self.buf[self.pos])
        } else {
            None
        }
    }

    /// True iff no token remains.
    pub fn is_eof(&self) -> (r: bool)
        requires
            self.wf(),
        ensures
            r == (self.remaining().len() == 0),
    {
        self.pos == self.buf.len()
    }

    /// Captures the current position. The `info` hint is for diagnostics
    /// only and is not retained, so it cannot affect marker equality.
    pub fn mark(&self, _info: &str) -> (m: Marker)
        requires
            self.wf(),
        ensures
            m == self.marker_at(),
            self.valid_marker(m),
    {
        Marker { pos: self.pos, byte_pos: self.byte_pos }
    }

    /// Resets the cursor to a previously captured position. Afterwards the
    /// cursor behaves exactly as it did when the marker was taken.
    pub fn rewind(&mut self, m: Marker)
        requires
            old(self).wf(),
            old(self).valid_marker(m),
        ensures
            final(self).wf(),
            *final(self) == old(self).rewound(m),
            final(self).marker_at() == m,
            final(self).remaining() == old(self).buf@.skip(m.pos as int),
    {
        self.pos = m.pos;
        self.byte_pos = m.byte_pos;
    }

    /// Consumes the next `n` characters, advancing the byte offset by their
    /// combined encoded width.
    fn advance(&mut self, n: usize)
        requires
            old(self).wf(),
            n <= old(self).remaining().len(),
        ensures
            final(self).wf(),
            final(self).buf == old(self).buf,
            final(self).pos == old(self).pos + n,
            final(self).byte_pos == old(self).byte_pos + byte_len(
                old(self).remaining().take(n as int),
            ),
            final(self).remaining() == old(self).remaining().skip(n as int),
    {
        let ghost b = self.buf@;
        let ghost p = self.pos as int;
        proof {
            assert(old(self).remaining().len() == b.len() - p);
            lemma_byte_len_ge_len(b);
        }
        let w = range_width(&self.buf, self.pos, self.pos + n);
        proof {
            assert(b.skip(p).take(n as int) =~= b.subrange(p, p + n));
            assert(b.take(p + n).take(p) =~= b.take(p));
            assert(b.take(p + n).skip(p) =~= b.subrange(p, p + n));
            lemma_byte_len_split(b.take(p + n), p);
            lemma_byte_len_subrange_le(b, 0, p + n);
            assert(b.take(p + n) =~= b.subrange(0, p + n));
            assert(b.skip(p + n) =~= b.skip(p).skip(n as int));
        }
        self.byte_pos = self.byte_pos + w;
        self.pos = self.pos + n;
    }

    /// Returns the next `n` tokens as a slice without consuming them, or
    /// `None` if fewer than `n` remain.
    pub fn slice(&self, n: usize) -> (r: Option<Vec<char>>)
        requires
            self.wf(),
        ensures
            (match r {
                Some(v) => n <= self.remaining().len() && v@ == self.remaining().take(n as int),
                None => n > self.remaining().len(),
            }),
    {
        if n > self.buf.len() - self.pos {
            return None;
        }
        let mut v: Vec<char> = Vec::new();
        let mut i: usize = 0;
        while i < n
            invariant
                self.wf(),
                i <= n,
                n <= self.remaining().len(),
                v@ == self.remaining().take(i as int),
            decreases n - i,
        {
            proof {
                assert(self.remaining().take(i + 1) =~= self.remaining().take(i as int).push(
                    self.remaining()[i as int],
                ));
                assert(self.remaining().len() == self.buf@.len() - self.pos);
                lemma_byte_len_ge_len(self.buf@);
            }
            v.push(self.buf[self.pos + i]);
            i = i + 1;
        }
        Some(v)
    }

    /// If a next token exists and satisfies `f`, consumes exactly that token
    /// (advancing by its encoded width) and returns it; otherwise leaves the
    /// cursor untouched and returns `None`.
    pub fn eat<F: Fn(char) -> bool>(&mut self, f: F) -> (r: Option<char>)
        requires
            old(self).wf(),
            forall|c: char| call_requires(f, (c,)),
        ensures
            final(self).wf(),
            final(self).buf == old(self).buf,
            (match r {
                Some(t) => {
                    &&& old(self).remaining().len() > 0
                    &&& t == old(self).remaining()[0]
                    &&& call_ensures(f, (t,), true)
                    &&& final(self).pos == old(self).pos + 1
                    &&& final(self).byte_pos == old(self).byte_pos + char_width(t)
                    &&& final(self).remaining() == old(self).remaining().skip(1)
                },
                None => {
                    &&& *final(self) == *old(self)
                    &&& old(self).remaining().len() > 0 ==> call_ensures(
                        f,
                        (old(self).remaining()[0],),
                        false,
                    )
                },
            }),
    {
        match self.token() {
            Some(t) => {
                if f(t) {
                    proof {
                        assert(old(self).remaining().take(1) =~= Seq::<char>::empty().push(t));
                        lemma_byte_len_snoc(Seq::<char>::empty(), t);
                    }
                    self.advance(1);
                    Some(t)
                } else {
                    None
                }
            },
            None => None,
        }
    }

    /// True iff a next token exists and satisfies `f`; never consumes.
    pub fn peek<F: Fn(char) -> bool>(&self, f: F) -> (r: bool)
        requires
            self.wf(),
            forall|c: char| call_requires(f, (c,)),
        ensures
            self.remaining().len() == 0 ==> r == false,
            self.remaining().len() > 0 ==> call_ensures(f, (self.remaining()[0],), r),
    {
        match self.token() {
            Some(t) => f(t),
            None => false,
        }
    }

    /// True iff a slice of length `n` exists and satisfies `f`; never
    /// consumes.
    pub fn peek_slice<F: Fn(&Vec<char>) -> bool>(&self, n: usize, f: F) -> (r: bool)
        requires
            self.wf(),
            forall|v: Vec<char>| call_requires(f, (&v,)),
        ensures
            n > self.remaining().len() ==> r == false,
            n <= self.remaining().len() ==> slice_check(f, self.remaining().take(n as int), r),
    {
        match self.slice(n) {
            Some(s) => f(&s),
            None => false,
        }
    }

    /// If the next `n` tokens exist and satisfy `f` as a slice, consumes them
    /// and returns the slice; otherwise leaves the cursor untouched and
    /// returns `None`.
    pub fn eat_slice<F: Fn(&Vec<char>) -> bool>(&mut self, n: usize, f: F) -> (r: Option<
        Vec<char>,
    >)
        requires
            old(self).wf(),
            forall|v: Vec<char>| call_requires(f, (&v,)),
        ensures
            final(self).wf(),
            final(self).buf == old(self).buf,
            (match r {
                Some(s) => {
                    &&& n <= old(self).remaining().len()
                    &&& s@ == old(self).remaining().take(n as int)
                    &&& call_ensures(f, (&s,), true)
                    &&& final(self).pos == old(self).pos + n
                    &&& final(self).byte_pos == old(self).byte_pos + byte_len(s@)
                    &&& final(self).remaining() == old(self).remaining().skip(n as int)
                },
                None => {
                    &&& *final(self) == *old(self)
                    &&& n <= old(self).remaining().len() ==> slice_check(
                        f,
                        old(self).remaining().take(n as int),
                        false,
                    )
                },
            }),
    {
        match self.slice(n) {
            Some(s) => {
                if f(&s) {
                    self.advance(n);
                    Some(s)
                } else {
                    None
                }
            },
            None => None,
        }
    }

    /// Greedily consumes the maximal run of leading tokens satisfying `f`
    /// (zero or more) and returns it: afterwards either the stream is at its
    /// end or the next token fails `f`.
    pub fn take<F: Fn(char) -> bool>(&mut self, f: F) -> (r: Vec<char>)
        requires
            old(self).wf(),
            forall|c: char| call_requires(f, (c,)),
        ensures
            final(self).wf(),
            final(self).buf == old(self).buf,
            r@.len() <= old(self).remaining().len(),
            r@ == old(self).remaining().take(r@.len() as int),
            forall|i: int| 0 <= i < r@.len() ==> call_ensures(f, (r@[i],), true),
            r@.len() < old(self).remaining().len() ==> call_ensures(
                f,
                (old(self).remaining()[r@.len() as int],),
                false,
            ),
            final(self).pos == old(self).pos + r@.len(),
            final(self).byte_pos == old(self).byte_pos + byte_len(r@),
            final(self).remaining() == old(self).remaining().skip(r@.len() as int),
    {
        let ghost start = self.pos as int;
        let mut i: usize = self.pos;
        loop
            invariant
                self.wf(),
                *self == *old(self),
                start == self.pos,
                start <= i <= self.buf@.len(),
                forall|c: char| call_requires(f, (c,)),
                forall|j: int| start <= j < i ==> call_ensures(f, (self.buf@[j],), true),
            ensures
                start <= i <= self.buf@.len(),
                forall|j: int| start <= j < i ==> call_ensures(f, (self.buf@[j],), true),
                i < self.buf@.len() ==> call_ensures(f, (self.buf@[i as int],), false),
            decreases self.buf@.len() - i,
        {
            if i == self.buf.len() {
                break;
            }
            let c = self.buf[i];
            if !f(c) {
                break;
            }
            i = i + 1;
        }
        let n = i - self.pos;
        let r = self.slice(n).unwrap();
        self.advance(n);
        proof {
            assert forall|k: int| 0 <= k < r@.len() implies call_ensures(f, (r@[k],), true) by {
                assert(r@[k] == self.buf@[start + k]);
            }
        }
        r
    }

    /// Consumes the same maximal run `take` would, discarding its content;
    /// returns the number of tokens for which the predicate held, which is
    /// exactly the length of that run.
    pub fn skip<F: Fn(char) -> bool>(&mut self, f: F) -> (n: usize)
        requires
            old(self).wf(),
            forall|c: char| call_requires(f, (c,)),
        ensures
            final(self).wf(),
            final(self).buf == old(self).buf,
            n <= old(self).remaining().len(),
            forall|i: int| 0 <= i < n ==> call_ensures(f, (old(self).remaining()[i],), true),
            n < old(self).remaining().len() ==> call_ensures(
                f,
                (old(self).remaining()[n as int],),
                false,
            ),
            final(self).pos == old(self).pos + n,
            final(self).byte_pos == old(self).byte_pos + byte_len(
                old(self).remaining().take(n as int),
            ),
            final(self).remaining() == old(self).remaining().skip(n as int),
    {
        let r = self.take(f);
        proof {
            assert forall|i: int| 0 <= i < r@.len() implies call_ensures(
                f,
                (old(self).remaining()[i],),
                true,
            ) by {
                assert(r@[i] == old(self).remaining().take(r@.len() as int)[i]);
            }
        }
        r.len()
    }

    /// Renders a short diagnostic snippet of the stream content starting at
    /// `mark` (or at the current position if `mark` is absent): up to
    /// `CONTEXT_CHARS` characters, escaped and quoted. Returns `None` when no
    /// content remains there. Never mutates the cursor.
    pub fn context(&self, mark: Option<&Marker>) -> (r: Option<String>)
        requires
            self.wf(),
            (match mark {
                Some(m) => self.valid_marker(*m),
                None => true,
            }),
        ensures
            ({
                let src = (match mark {
                    Some(m) => self.buf@.skip(m.pos as int),
                    None => self.remaining(),
                });
                match r {
                    Some(c) => src.len() > 0 && c@ == snippet(src),
                    None => src.len() == 0,
                }
            }),
    {
        let start = match mark {
            Some(m) => m.pos,
            None => self.pos,
        };
        let ghost src = self.buf@.skip(start as int);
        let rem = self.buf.len() - start;
        if rem == 0 {
            return None;
        }
        let count = if rem < CONTEXT_CHARS {
            rem
        } else {
            CONTEXT_CHARS
        };
        let mut out: Vec<char> = Vec::new();
        out.push('"');
        proof {
            assert(src.take(0) =~= Seq::<char>::empty());
            assert(out@ =~= seq!['"'] + quote_body(src.take(0)));
            lemma_byte_len_ge_len(self.buf@);
        }
        let mut i: usize = 0;
        while i < count
            invariant
                start + count <= self.buf@.len(),
                self.buf@.len() <= usize::MAX,
                count <= CONTEXT_CHARS,
                i <= count,
                src == self.buf@.skip(start as int),
                out@ == seq!['"'] + quote_body(src.take(i as int)),
            decreases count - i,
        {
            let c = self.buf[start + i];
            proof {
                assert(src[i as int] == self.buf@[start + i]);
                assert(src.take(i + 1) =~= src.take(i as int).push(src[i as int]));
                lemma_quote_body_snoc(src.take(i as int), src[i as int]);
            }
            if c == '"' || c == '\\' {
                out.push('\\');
            }
            out.push(c);
            proof {
                assert(out@ =~= seq!['"'] + quote_body(src.take(i + 1)));
            }
            i = i + 1;
        }
        out.push('"');
        proof {
            assert((if src.len() <= CONTEXT_CHARS {
                src
            } else {
                src.take(CONTEXT_CHARS as int)
            }) =~= src.take(count as int));
            assert(out@ =~= snippet(src));
        }
        Some(chars_to_string(&out))
    }
}

} // verus!
