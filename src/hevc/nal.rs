use vstd::prelude::*;

use crate::error::Error;

verus! {

/// Whether the three bytes of `s` at `i` are the emulation-prevention
/// pattern `00 00 03`.
pub open spec fn is_escape_at(s: Seq<u8>, i: int) -> bool {
    0 <= i && i + 3 <= s.len() && s[i] == 0 && s[i + 1] == 0 && s[i + 2] == 3
}

/// `s` with emulation prevention removed: every `00 00 03`, taken from the
/// front, loses its `03`.
pub open spec fn unescape(s: Seq<u8>) -> Seq<u8>
    decreases s.len(),
{
    if s.len() == 0 {
        Seq::empty()
    } else if is_escape_at(s, 0) {
        seq![0u8, 0u8] + unescape(s.subrange(3, s.len() as int))
    } else {
        seq![s[0]] + unescape(s.subrange(1, s.len() as int))
    }
}

/// `s` with emulation prevention added, after `z` zero bytes have just been
/// written: a `03` goes in after two zeros whenever the next byte is 3 or
/// less.
pub open spec fn escape_from(s: Seq<u8>, z: nat) -> Seq<u8>
    decreases s.len(),
{
    if s.len() == 0 {
        Seq::empty()
    } else if z >= 2 && s[0] <= 3 {
        seq![3u8, s[0]] + escape_from(
            s.subrange(1, s.len() as int),
            if s[0] == 0 {
                1
            } else {
                0
            },
        )
    } else {
        seq![s[0]] + escape_from(
            s.subrange(1, s.len() as int),
            if s[0] == 0 {
                if z >= 2 {
                    2
                } else {
                    z + 1
                }
            } else {
                0
            },
        )
    }
}

/// `s` with emulation prevention added.
pub open spec fn escape(s: Seq<u8>) -> Seq<u8> {
    escape_from(s, 0)
}

/// `z` zero bytes.
pub open spec fn zeros(z: nat) -> Seq<u8> {
    Seq::new(z, |i: int| 0u8)
}

/// Removing emulation prevention undoes adding it, after any run of up to two
/// zeros.
proof fn lemma_unescape_escape_from(s: Seq<u8>, z: nat)
    requires
        z <= 2,
    ensures
        unescape(zeros(z) + escape_from(s, z)) == zeros(z) + s,
    decreases s.len(), 2 - z,
{
    let e = escape_from(s, z);
    let all = zeros(z) + e;
    if s.len() == 0 {
        assert(e == Seq::<u8>::empty());
        assert(all =~= zeros(z));
        if z == 0 {
            assert(zeros(0) =~= Seq::<u8>::empty());
        } else if z == 1 {
            assert(all.subrange(1, 1) =~= Seq::<u8>::empty());
            assert(unescape(all) =~= seq![0u8] + unescape(all.subrange(1, 1)));
            assert(zeros(1) + s =~= seq![0u8]);
        } else {
            assert(all.subrange(1, 2) =~= zeros(1));
            assert(zeros(1).subrange(1, 1) =~= Seq::<u8>::empty());
            assert(unescape(zeros(1)) =~= seq![0u8] + unescape(zeros(1).subrange(1, 1)));
            assert(unescape(all) =~= seq![0u8] + unescape(all.subrange(1, 2)));
            assert(zeros(2) + s =~= seq![0u8, 0u8]);
        }
        return;
    }
    let b = s[0];
    let rest = s.subrange(1, s.len() as int);
    assert(s =~= seq![b] + rest);
    if z >= 2 && b <= 3 {
        let z2: nat = if b == 0 {
            1
        } else {
            0
        };
        let tail = escape_from(rest, z2);
        assert(e == seq![3u8, b] + tail);
        assert(all =~= seq![0u8, 0u8, 3u8, b] + tail);
        assert(is_escape_at(all, 0));
        assert(all.subrange(3, all.len() as int) =~= seq![b] + tail);
        assert(unescape(all) == seq![0u8, 0u8] + unescape(seq![b] + tail));
        if b == 0 {
            assert(seq![b] + tail =~= zeros(1) + tail);
            lemma_unescape_escape_from(rest, 1);
            assert(unescape(seq![b] + tail) == zeros(1) + rest);
            assert(zeros(2) + s =~= seq![0u8, 0u8] + (zeros(1) + rest));
            assert(unescape(all) == zeros(2) + s);
        } else {
            let t = seq![b] + tail;
            assert(!is_escape_at(t, 0));
            assert(t.subrange(1, t.len() as int) =~= tail);
            assert(zeros(0) + tail =~= tail);
            lemma_unescape_escape_from(rest, 0);
            assert(zeros(0) + rest =~= rest);
            assert(unescape(tail) == rest);
            assert(unescape(t) == seq![b] + unescape(tail));
            assert(zeros(2) + s =~= seq![0u8, 0u8] + (seq![b] + rest));
            assert(unescape(all) == zeros(2) + s);
        }
    } else {
        let z2: nat = if b == 0 {
            if z >= 2 {
                2
            } else {
                z + 1
            }
        } else {
            0
        };
        let tail = escape_from(rest, z2);
        assert(e == seq![b] + tail);
        if b == 0 {
            assert(z < 2);
            assert(all =~= zeros(z + 1) + tail);
            lemma_unescape_escape_from(rest, z + 1);
            assert(zeros(z) + s =~= zeros(z + 1) + rest);
            assert(unescape(all) == zeros(z) + s);
        } else {
            lemma_unescape_escape_from(rest, 0);
            assert(zeros(0) + tail =~= tail);
            assert(zeros(0) + rest =~= rest);
            let t = seq![b] + tail;
            assert(!is_escape_at(t, 0));
            assert(t.subrange(1, t.len() as int) =~= tail);
            assert(unescape(t) == seq![b] + rest);
            if z == 0 {
                assert(all =~= t);
                assert(zeros(0) + s =~= s);
            } else if z == 1 {
                assert(all =~= seq![0u8] + t);
                assert(!is_escape_at(all, 0));
                assert(all.subrange(1, all.len() as int) =~= t);
                assert(unescape(all) == seq![0u8] + unescape(t));
                assert(zeros(1) + s =~= seq![0u8] + s);
            } else {
                assert(all =~= seq![0u8, 0u8] + t);
                assert(!is_escape_at(all, 0));
                let a1 = all.subrange(1, all.len() as int);
                assert(a1 =~= seq![0u8] + t);
                assert(!is_escape_at(a1, 0));
                assert(a1.subrange(1, a1.len() as int) =~= t);
                assert(unescape(a1) == seq![0u8] + unescape(t));
                assert(unescape(all) == seq![0u8] + unescape(a1));
                assert(zeros(2) + s =~= seq![0u8, 0u8] + s);
            }
            assert(unescape(all) == zeros(z) + s);
        }
        assert(unescape(all) == zeros(z) + s);
    }
}

/// Adding emulation prevention and then removing it gives back the bytes
/// one started from.
pub proof fn lemma_unescape_escape(s: Seq<u8>)
    ensures
        unescape(escape(s)) == s,
{
    lemma_unescape_escape_from(s, 0);
    assert(zeros(0) + escape(s) =~= escape(s));
    assert(zeros(0) + s =~= s);
}

/// Removes emulation prevention from a NAL unit payload.
pub fn un_nal(bytes: &[u8]) -> (r: Vec<u8>)
    ensures
        r@ == unescape(bytes@),
        r@.len() <= bytes@.len(),
{
    let mut ret: Vec<u8> = Vec::new();
    let mut i: usize = 0;
    let n = bytes.len();
    assert(bytes@.subrange(0, n as int) =~= bytes@);
    while i < n
        invariant
            n == bytes@.len(),
            i <= n,
            ret@ + unescape(bytes@.subrange(i as int, n as int)) == unescape(bytes@),
            ret@.len() <= i,
        decreases n - i,
    {
        let ghost s = bytes@.subrange(i as int, n as int);
        if n - i > 2 && bytes[i] == 0 && bytes[i + 1] == 0 && bytes[i + 2] == 3 {
            assert(is_escape_at(s, 0));
            assert(s.subrange(3, s.len() as int) =~= bytes@.subrange(i + 3, n as int));
            ret.push(0);
            ret.push(0);
            i = i + 3;
        } else {
            assert(!is_escape_at(s, 0));
            assert(s.subrange(1, s.len() as int) =~= bytes@.subrange(i + 1, n as int));
            ret.push(bytes[i]);
            i = i + 1;
        }
        assert(ret@ + unescape(bytes@.subrange(i as int, n as int)) =~= unescape(bytes@));
    }
    assert(bytes@.subrange(n as int, n as int) =~= Seq::<u8>::empty());
    assert(ret@ =~= unescape(bytes@));
    ret
}

/// The offset of the first start code `00 00 01` in `s` at or after `j`, or
/// the length of `s` when there is none.
pub open spec fn next_start(s: Seq<u8>, j: int) -> int
    decreases s.len() - j,
{
    if j + 3 > s.len() {
        s.len() as int
    } else if s[j] == 0 && s[j + 1] == 0 && s[j + 2] == 1 {
        j
    } else {
        next_start(s, j + 1)
    }
}

/// Splits an Annex-B byte stream into NAL units: each unit runs up to the next
/// start code `00 00 01`, or to the end, and comes out with emulation
/// prevention removed.
pub struct NalReader {
    data: Vec<u8>,
    pos: usize,
}

impl NalReader {
    /// The whole stream.
    pub closed spec fn bytes(&self) -> Seq<u8> {
        self.data@
    }

    /// The offset where the next unit starts.
    pub closed spec fn pos(&self) -> int {
        self.pos as int
    }

    pub open spec fn wf(&self) -> bool {
        0 <= self.pos() <= self.bytes().len()
    }

    pub fn new(inner: &[u8]) -> (r: NalReader)
        ensures
            r.wf(),
            r.bytes() == inner@,
            r.pos() == 0,
    {
        NalReader { data: vstd::slice::slice_to_vec(inner), pos: 0 }
    }

    /// The next NAL unit, or `None` at the end of the stream. The start code
    /// that ends a unit is consumed with it.
    pub fn read_nal(&mut self) -> (r: Result<Option<Vec<u8>>, Error>)
        requires
            old(self).wf(),
        ensures
            final(self).wf(),
            final(self).bytes() == old(self).bytes(),
            ({
                let d = old(self).bytes();
                let p = old(self).pos();
                let e = next_start(d, p);
                if p == d.len() {
                    r == Ok::<Option<Vec<u8>>, Error>(None) && final(self).pos() == p
                } else {
                    &&& r is Ok
                    &&& r->Ok_0 is Some
                    &&& r->Ok_0->Some_0@ == unescape(d.subrange(p, e))
                    &&& final(self).pos() == if e == d.len() {
                        e
                    } else {
                        e + 3
                    }
                }
            }),
    {
        let n = self.data.len();
        if self.pos == n {
            return Ok(None);
        }
        let ghost d = self.data@;
        let start = self.pos;
        let mut j = start;
        while n - j >= 3 && !(self.data[j] == 0 && self.data[j + 1] == 0 && self.data[j + 2] == 1)
            invariant
                n == d.len(),
                self.data@ == d,
                start <= j <= n,
                next_start(d, start as int) == next_start(d, j as int),
            decreases n - j,
        {
            j = j + 1;
        }
        let e = if n - j >= 3 {
            j
        } else {
            n
        };
        let payload = un_nal(vstd::slice::slice_subrange(self.data.as_slice(), start, e));
        self.pos = if e == n {
            n
        } else {
            e + 3
        };
        Ok(Some(payload))
    }
}

} // verus!
