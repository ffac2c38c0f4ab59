//! The mathematical model of newline conversion.
//!
//! Both the byte-oriented converter and the text-oriented functions perform
//! the same two scans, one at the granularity of code units (sequences of
//! bytes) and one at the granularity of decoded characters.  The spec
//! functions here therefore work on a sequence of arbitrary elements, with
//! the carriage return and the line feed passed in as values.

use vstd::prelude::*;

verus! {

/// The result of the DOS-to-UNIX scan: every `cr` element that is
/// immediately followed by an `lf` element is dropped; everything else,
/// including a trailing or otherwise lone `cr`, is kept unchanged.
pub open spec fn dos2unix_seq<T>(s: Seq<T>, cr: T, lf: T) -> Seq<T>
    decreases s.len(),
{
    if s.len() == 0 {
        Seq::empty()
    } else if s[0] == cr && s.len() >= 2 && s[1] == lf {
        dos2unix_seq(s.drop_first(), cr, lf)
    } else {
        seq![s[0]] + dos2unix_seq(s.drop_first(), cr, lf)
    }
}

/// The result of the UNIX-to-DOS scan: every `lf` element whose predecessor
/// is not a `cr` element gains a `cr` directly in front of it; everything
/// else is kept unchanged.  `prev_cr` says whether the element just before
/// `s` was a `cr`; at the start of a whole input it is `false`, so a leading
/// `lf` gains a `cr` as well.
pub open spec fn unix2dos_seq<T>(s: Seq<T>, prev_cr: bool, cr: T, lf: T) -> Seq<T>
    decreases s.len(),
{
    if s.len() == 0 {
        Seq::empty()
    } else if s[0] == lf && !prev_cr {
        seq![cr, lf] + unix2dos_seq(s.drop_first(), s[0] == cr, cr, lf)
    } else {
        seq![s[0]] + unix2dos_seq(s.drop_first(), s[0] == cr, cr, lf)
    }
}

/// Whether `a` occurs in `s` immediately followed by `b`.
pub open spec fn contains_pair<T>(s: Seq<T>, a: T, b: T) -> bool {
    exists|i: int| 0 <= i && i + 1 < s.len() && #[trigger] s[i] == a && s[i + 1] == b
}

/// Whether `a`, `b`, `c` occur in `s` as three adjacent elements.
pub open spec fn contains_triple<T>(s: Seq<T>, a: T, b: T, c: T) -> bool {
    exists|i: int| 0 <= i && i + 2 < s.len() && #[trigger] s[i] == a && s[i + 1] == b && s[i + 2]
            == c
}

/// Whether every `lf` in `s` is directly preceded by a `cr` (a leading `lf`
/// counts as preceded exactly when `prev_cr` holds).  This is what it means
/// for `s` to be fully in DOS form.
pub open spec fn lf_paired<T>(s: Seq<T>, prev_cr: bool, cr: T, lf: T) -> bool {
    forall|i: int|
        0 <= i < s.len() && #[trigger] s[i] == lf ==> (if i == 0 {
            prev_cr
        } else {
            s[i - 1] == cr
        })
}

/// Idempotence of the DOS-to-UNIX scan: an input that is already fully in
/// UNIX form — it contains no `cr lf` pair — comes back unchanged.
pub proof fn lemma_dos2unix_noop<T>(s: Seq<T>, cr: T, lf: T)
    requires
        !contains_pair(s, cr, lf),
    ensures
        dos2unix_seq(s, cr, lf) == s,
    decreases s.len(),
{
    if s.len() == 0 {
        assert(dos2unix_seq(s, cr, lf) =~= s);
    } else {
        if s[0] == cr && s.len() >= 2 && s[1] == lf {
            assert(contains_pair(s, cr, lf)) by {
                assert(0 <= 0 && 0 + 1 < s.len() && s[0] == cr && s[0int + 1] == lf);
            }
            assert(false);
        }
        assert(!contains_pair(s.drop_first(), cr, lf)) by {
            if contains_pair(s.drop_first(), cr, lf) {
                let i = choose|i: int|
                    0 <= i && i + 1 < s.drop_first().len() && #[trigger] s.drop_first()[i] == cr
                        && s.drop_first()[i + 1] == lf;
                assert(s[i + 1] == cr && s[i + 2] == lf);
                assert(contains_pair(s, cr, lf));
                assert(false);
            }
        }
        lemma_dos2unix_noop(s.drop_first(), cr, lf);
        assert(dos2unix_seq(s, cr, lf) =~= s);
    }
}

/// Idempotence of the UNIX-to-DOS scan: an input that is already fully in
/// DOS form — every `lf` is directly preceded by a `cr` — comes back
/// unchanged.
pub proof fn lemma_unix2dos_noop<T>(s: Seq<T>, prev_cr: bool, cr: T, lf: T)
    requires
        lf_paired(s, prev_cr, cr, lf),
    ensures
        unix2dos_seq(s, prev_cr, cr, lf) == s,
    decreases s.len(),
{
    if s.len() == 0 {
        assert(unix2dos_seq(s, prev_cr, cr, lf) =~= s);
    } else {
        assert(!(s[0] == lf && !prev_cr));
        assert(lf_paired(s.drop_first(), s[0] == cr, cr, lf)) by {
            assert forall|i: int|
                0 <= i < s.drop_first().len() && #[trigger] s.drop_first()[i] == lf implies (if i
                == 0 {
                s[0] == cr
            } else {
                s.drop_first()[i - 1] == cr
            }) by {
                assert(s[i + 1] == lf);
            }
        }
        lemma_unix2dos_noop(s.drop_first(), s[0] == cr, cr, lf);
        assert(unix2dos_seq(s, prev_cr, cr, lf) =~= s);
    }
}

/// After the UNIX-to-DOS scan no `lf` is left unpaired: every `lf` in the
/// result is directly preceded by a `cr` (a leading `lf` only under the
/// incoming `prev_cr` flag, which is `false` for a whole input).  In other
/// words, the number of `cr lf` pairs in the result equals the number of
/// `lf` elements in it.
pub proof fn lemma_unix2dos_pairs<T>(s: Seq<T>, prev_cr: bool, cr: T, lf: T)
    requires
        cr != lf,
    ensures
        lf_paired(unix2dos_seq(s, prev_cr, cr, lf), prev_cr, cr, lf),
    decreases s.len(),
{
    let r = unix2dos_seq(s, prev_cr, cr, lf);
    if s.len() == 0 {
    } else {
        let flag = s[0] == cr;
        let tail = unix2dos_seq(s.drop_first(), flag, cr, lf);
        lemma_unix2dos_pairs(s.drop_first(), flag, cr, lf);
        if s[0] == lf && !prev_cr {
            assert(r == seq![cr, lf] + tail);
            assert forall|i: int| 0 <= i < r.len() && #[trigger] r[i] == lf implies (if i == 0 {
                prev_cr
            } else {
                r[i - 1] == cr
            }) by {
                if i == 0 {
                    assert(r[0] == cr);
                    assert(false);
                } else if i == 1 {
                    assert(r[0] == cr);
                } else {
                    assert(tail[i - 2] == lf);
                    if i - 2 == 0 {
                        assert(flag);
                        assert(false);
                    } else {
                        assert(tail[i - 3] == cr);
                        assert(r[i - 1] == tail[i - 3]);
                    }
                }
            }
        } else {
            assert(r == seq![s[0]] + tail);
            assert forall|i: int| 0 <= i < r.len() && #[trigger] r[i] == lf implies (if i == 0 {
                prev_cr
            } else {
                r[i - 1] == cr
            }) by {
                if i == 0 {
                    assert(s[0] == lf);
                    assert(prev_cr);
                } else {
                    assert(tail[i - 1] == lf);
                    if i - 1 == 0 {
                        assert(flag);
                        assert(r[0] == s[0]);
                    } else {
                        assert(tail[i - 2] == cr);
                        assert(r[i - 1] == tail[i - 2]);
                    }
                }
            }
        }
    }
}

/// The first element the DOS-to-UNIX scan emits is the first element of the
/// input, except when the input starts with a dropped `cr lf` pair, in
/// which case it is that `lf`.
proof fn lemma_dos2unix_head<T>(s: Seq<T>, cr: T, lf: T)
    requires
        cr != lf,
        s.len() > 0,
        dos2unix_seq(s, cr, lf).len() > 0,
    ensures
        dos2unix_seq(s, cr, lf)[0] == s[0] || (s[0] == cr && s.len() >= 2 && s[1] == lf
            && dos2unix_seq(s, cr, lf)[0] == lf),
{
    if s[0] == cr && s.len() >= 2 && s[1] == lf {
        let s1 = s.drop_first();
        assert(s1[0] == lf && s1[0] != cr);
        assert(dos2unix_seq(s1, cr, lf) == seq![s1[0]] + dos2unix_seq(s1.drop_first(), cr, lf));
        assert(dos2unix_seq(s, cr, lf)[0] == lf);
    }
}

/// After the DOS-to-UNIX scan the result contains no `cr` directly before
/// an `lf` — provided the input nowhere holds `cr cr lf`, whose middle `cr`
/// is dropped and thereby brings the outer `cr` and the `lf` together.
pub proof fn lemma_dos2unix_no_crlf<T>(s: Seq<T>, cr: T, lf: T)
    requires
        cr != lf,
        !contains_triple(s, cr, cr, lf),
    ensures
        !contains_pair(dos2unix_seq(s, cr, lf), cr, lf),
    decreases s.len(),
{
    let r = dos2unix_seq(s, cr, lf);
    if s.len() == 0 {
    } else {
        let s1 = s.drop_first();
        assert(!contains_triple(s1, cr, cr, lf)) by {
            if contains_triple(s1, cr, cr, lf) {
                let i = choose|i: int|
                    0 <= i && i + 2 < s1.len() && #[trigger] s1[i] == cr && s1[i + 1] == cr && s1[i
                        + 2] == lf;
                assert(s[i + 1] == cr && s[i + 2] == cr && s[i + 3] == lf);
                assert(contains_triple(s, cr, cr, lf));
                assert(false);
            }
        }
        lemma_dos2unix_no_crlf(s1, cr, lf);
        let r1 = dos2unix_seq(s1, cr, lf);
        if s[0] == cr && s.len() >= 2 && s[1] == lf {
            assert(r == r1);
        } else {
            assert(r == seq![s[0]] + r1);
            assert(!contains_pair(r, cr, lf)) by {
                if contains_pair(r, cr, lf) {
                    let i = choose|i: int|
                        0 <= i && i + 1 < r.len() && #[trigger] r[i] == cr && r[i + 1] == lf;
                    if i == 0 {
                        assert(s[0] == cr);
                        assert(r1[0] == lf);
                        assert(s1.len() > 0);
                        lemma_dos2unix_head(s1, cr, lf);
                        if r1[0] == s1[0] {
                            assert(s[1] == lf && s.len() >= 2);
                            assert(false);
                        } else {
                            assert(s1[0] == cr && s1.len() >= 2 && s1[1] == lf);
                            assert(s[0] == cr && s[1] == cr && s[2] == lf && s.len() >= 3);
                            assert(contains_triple(s, cr, cr, lf)) by {
                                assert(0 <= 0 && 0 + 2 < s.len() && s[0] == cr && s[0int + 1] == cr
                                    && s[0int + 2] == lf);
                            }
                            assert(false);
                        }
                    } else {
                        assert(r1[i - 1] == cr && r1[i] == lf);
                        assert(contains_pair(r1, cr, lf));
                        assert(false);
                    }
                }
            }
        }
    }
}

/// The round trip through DOS form and back: converting to DOS form first
/// changes nothing about the UNIX form of a text, for every input.  With
/// `prev_cr == false` this says the UNIX form of `unix2dos` of a text is
/// the UNIX form of the text itself.
pub proof fn lemma_round_trip<T>(s: Seq<T>, prev_cr: bool, cr: T, lf: T)
    requires
        cr != lf,
    ensures
        dos2unix_seq(unix2dos_seq(s, prev_cr, cr, lf), cr, lf) == dos2unix_seq(s, cr, lf),
    decreases s.len(),
{
    let s1 = s.drop_first();
    let u = unix2dos_seq(s, prev_cr, cr, lf);
    if s.len() == 0 {
        assert(u == Seq::<T>::empty());
    } else if s[0] == lf && !prev_cr {
        let t = unix2dos_seq(s1, false, cr, lf);
        lemma_round_trip(s1, false, cr, lf);
        assert(u == seq![cr, lf] + t);
        assert(u[0] == cr && u.len() >= 2 && u[1] == lf);
        assert(u.drop_first() =~= seq![lf] + t);
        assert(dos2unix_seq(u, cr, lf) == dos2unix_seq(seq![lf] + t, cr, lf));
        assert((seq![lf] + t)[0] == lf);
        assert((seq![lf] + t).drop_first() =~= t);
        assert(dos2unix_seq(seq![lf] + t, cr, lf) == seq![lf] + dos2unix_seq(t, cr, lf));
        assert(dos2unix_seq(s, cr, lf) == seq![lf] + dos2unix_seq(s1, cr, lf));
    } else if s[0] == lf {
        let t = unix2dos_seq(s1, false, cr, lf);
        lemma_round_trip(s1, false, cr, lf);
        assert(u == seq![lf] + t);
        assert(u[0] == lf && u[0] != cr);
        assert(u.drop_first() =~= t);
        assert(dos2unix_seq(u, cr, lf) == seq![lf] + dos2unix_seq(t, cr, lf));
        assert(dos2unix_seq(s, cr, lf) == seq![lf] + dos2unix_seq(s1, cr, lf));
    } else if s[0] == cr {
        let t = unix2dos_seq(s1, true, cr, lf);
        lemma_round_trip(s1, true, cr, lf);
        assert(u == seq![cr] + t);
        assert(u.drop_first() =~= t);
        if s1.len() == 0 {
            assert(t == Seq::<T>::empty());
            assert(u =~= seq![cr]);
            assert(u.len() == 1);
            assert(dos2unix_seq(u, cr, lf) == seq![cr] + dos2unix_seq(u.drop_first(), cr, lf));
            assert(dos2unix_seq(s, cr, lf) == seq![cr] + dos2unix_seq(s1, cr, lf));
        } else if s1[0] == lf {
            assert(t == seq![lf] + unix2dos_seq(s1.drop_first(), false, cr, lf));
            assert(u[1] == t[0] && t[0] == lf);
            assert(u.len() >= 2);
            assert(dos2unix_seq(u, cr, lf) == dos2unix_seq(t, cr, lf));
            assert(s[1] == lf && s.len() >= 2);
            assert(dos2unix_seq(s, cr, lf) == dos2unix_seq(s1, cr, lf));
        } else {
            assert(t == seq![s1[0]] + unix2dos_seq(s1.drop_first(), s1[0] == cr, cr, lf));
            assert(u.len() >= 2 && u[1] == s1[0] && u[1] != lf);
            assert(dos2unix_seq(u, cr, lf) == seq![cr] + dos2unix_seq(t, cr, lf));
            assert(s[1] == s1[0] && s[1] != lf);
            assert(dos2unix_seq(s, cr, lf) == seq![cr] + dos2unix_seq(s1, cr, lf));
        }
    } else {
        let t = unix2dos_seq(s1, false, cr, lf);
        lemma_round_trip(s1, false, cr, lf);
        assert(u == seq![s[0]] + t);
        assert(u[0] != cr);
        assert(u.drop_first() =~= t);
        assert(dos2unix_seq(u, cr, lf) == seq![s[0]] + dos2unix_seq(t, cr, lf));
        assert(dos2unix_seq(s, cr, lf) == seq![s[0]] + dos2unix_seq(s1, cr, lf));
    }
}

/// The round trip through UNIX form and back, for a text that holds no
/// `cr lf` pair: on such input the DOS-to-UNIX scan changes nothing, so
/// converting to UNIX form first changes nothing about the DOS form.
pub proof fn lemma_round_trip_dos<T>(s: Seq<T>, prev_cr: bool, cr: T, lf: T)
    requires
        !contains_pair(s, cr, lf),
    ensures
        unix2dos_seq(dos2unix_seq(s, cr, lf), prev_cr, cr, lf) == unix2dos_seq(
            s,
            prev_cr,
            cr,
            lf,
        ),
{
    lemma_dos2unix_noop(s, cr, lf);
}

/// `s` cut into consecutive code units of `w` bytes each.  A trailing
/// remainder shorter than `w` is not a whole unit and is left out; an
/// aligned input has no such remainder.
pub open spec fn units_of(s: Seq<u8>, w: nat) -> Seq<Seq<u8>>
    decreases s.len(),
{
    if w == 0 || s.len() < w {
        Seq::empty()
    } else {
        seq![s.take(w as int)] + units_of(s.skip(w as int), w)
    }
}

/// The bytes of a sequence of code units, in order.
pub open spec fn bytes_of(units: Seq<Seq<u8>>) -> Seq<u8>
    decreases units.len(),
{
    if units.len() == 0 {
        Seq::empty()
    } else {
        units[0] + bytes_of(units.drop_first())
    }
}

/// One step of `bytes_of`: the bytes of `seq![u] + units` are `u` followed
/// by the bytes of `units`.
pub proof fn lemma_bytes_of_cons(u: Seq<u8>, units: Seq<Seq<u8>>)
    ensures
        bytes_of(seq![u] + units) == u + bytes_of(units),
{
    let cons = seq![u] + units;
    assert(cons.len() >= 1);
    assert(cons[0] == u);
    assert(cons.drop_first() =~= units);
}

/// One step of `units_of`: when at least one whole unit is left, the first
/// `w` bytes form the first unit and the rest are cut up behind it.
pub proof fn lemma_units_of_step(s: Seq<u8>, w: nat)
    requires
        1 <= w <= s.len(),
    ensures
        units_of(s, w) == seq![s.take(w as int)] + units_of(s.skip(w as int), w),
{
}

} // verus!
