//! The text-oriented converters: `dos2unix` and `unix2dos` work on
//! already-decoded text and are lazy — when the input is already in the
//! requested form they return it borrowed, without any allocation.

use std::borrow::Cow;

use vstd::prelude::*;
use vstd::std_specs::iter::IteratorSpec;

use crate::model::contains_pair;
use crate::model::dos2unix_seq;
use crate::model::lemma_dos2unix_noop;
use crate::model::lemma_unix2dos_noop;
use crate::model::lf_paired;
use crate::model::unix2dos_seq;

verus! {

broadcast use vstd::string::group_string_axioms;

/// Relies on `String::push`: it appends exactly the one given character to
/// the end of the string.
pub assume_specification[ String::push ](s: &mut String, ch: char)
    ensures
        final(s)@ == old(s)@.push(ch),
;

/// Whether `s` contains a `\r` directly followed by a `\n`.
fn has_crlf(s: &str) -> (b: bool)
    ensures
        b == contains_pair(s@, '\r', '\n'),
{
    let mut it = s.chars();
    let mut prev_cr = false;
    let ghost mut k: int = 0;
    proof {
        assert(s@.skip(0) =~= s@);
    }
    loop
        invariant
            it.obeys_prophetic_iter_laws(),
            0 <= k <= s@.len(),
            it.remaining() == s@.skip(k),
            prev_cr == (k > 0 && s@[k - 1] == '\r'),
            !contains_pair(s@.take(k), '\r', '\n'),
        decreases s@.len() - k,
    {
        match it.next() {
            Some(c) => {
                proof {
                    assert(s@.skip(k).len() > 0);
                    assert(c == s@.skip(k)[0]);
                    assert(c == s@[k]);
                    assert(s@.skip(k).drop_first() =~= s@.skip(k + 1));
                }
                if prev_cr && c == '\n' {
                    proof {
                        assert(0 <= k - 1 && (k - 1) + 1 < s@.len() && s@[k - 1] == '\r' && s@[(k
                            - 1) + 1] == '\n');
                    }
                    return true;
                }
                proof {
                    assert(!contains_pair(s@.take(k + 1), '\r', '\n')) by {
                        if contains_pair(s@.take(k + 1), '\r', '\n') {
                            let t = s@.take(k + 1);
                            let i = choose|i: int|
                                0 <= i && i + 1 < t.len() && #[trigger] t[i] == '\r' && t[i + 1]
                                    == '\n';
                            if i + 1 < k {
                                assert(s@.take(k)[i] == '\r' && s@.take(k)[i + 1] == '\n');
                                assert(contains_pair(s@.take(k), '\r', '\n'));
                            } else {
                                assert(s@[k - 1] == '\r' && s@[k] == '\n');
                            }
                            assert(false);
                        }
                    }
                    k = k + 1;
                }
                prev_cr = c == '\r';
            },
            None => {
                proof {
                    assert(s@.skip(k).len() == 0);
                    assert(k == s@.len());
                    assert(s@.take(k) =~= s@);
                }
                return false;
            },
        }
    }
}

/// Whether `s` contains a `\n` that is not directly preceded by a `\r`
/// (a leading `\n` counts).
fn has_unpaired_lf(s: &str) -> (b: bool)
    ensures
        b == !lf_paired(s@, false, '\r', '\n'),
{
    let mut it = s.chars();
    let mut prev_cr = false;
    let ghost mut k: int = 0;
    proof {
        assert(s@.skip(0) =~= s@);
    }
    loop
        invariant
            it.obeys_prophetic_iter_laws(),
            0 <= k <= s@.len(),
            it.remaining() == s@.skip(k),
            prev_cr == (k > 0 && s@[k - 1] == '\r'),
            lf_paired(s@.take(k), false, '\r', '\n'),
        decreases s@.len() - k,
    {
        match it.next() {
            Some(c) => {
                proof {
                    assert(s@.skip(k).len() > 0);
                    assert(c == s@.skip(k)[0]);
                    assert(c == s@[k]);
                    assert(s@.skip(k).drop_first() =~= s@.skip(k + 1));
                }
                if c == '\n' && !prev_cr {
                    proof {
                        assert(s@[k] == '\n' && !(if k == 0 {
                            false
                        } else {
                            s@[k - 1] == '\r'
                        }));
                        assert(!lf_paired(s@, false, '\r', '\n'));
                    }
                    return true;
                }
                proof {
                    assert(lf_paired(s@.take(k + 1), false, '\r', '\n')) by {
                        let t = s@.take(k + 1);
                        assert forall|i: int|
                            0 <= i < t.len() && #[trigger] t[i] == '\n' implies (if i == 0 {
                            false
                        } else {
                            t[i - 1] == '\r'
                        }) by {
                            if i < k {
                                assert(s@.take(k)[i] == '\n');
                            } else {
                                assert(s@[k] == '\n');
                                assert(prev_cr);
                            }
                        }
                    }
                    k = k + 1;
                }
                prev_cr = c == '\r';
            },
            None => {
                proof {
                    assert(s@.skip(k).len() == 0);
                    assert(k == s@.len());
                    assert(s@.take(k) =~= s@);
                }
                return false;
            },
        }
    }
}

/// The spec-level one-character-or-nothing prefix used to carry a pending
/// `\r` through the DOS-to-UNIX building loop.
spec fn pend(pending_cr: bool) -> Seq<char> {
    if pending_cr {
        seq!['\r']
    } else {
        Seq::empty()
    }
}

/// Builds the UNIX form of `s` in a fresh buffer: every `\r` directly
/// followed by a `\n` is dropped, everything else is kept.
fn build_unix(s: &str) -> (out: String)
    ensures
        out@ == dos2unix_seq(s@, '\r', '\n'),
{
    let mut out = String::new();
    let mut it = s.chars();
    let mut pending_cr = false;
    let ghost mut k: int = 0;
    proof {
        assert(s@.skip(0) =~= s@);
        assert(out@ + dos2unix_seq(pend(false) + s@.skip(0), '\r', '\n') =~= dos2unix_seq(
            s@,
            '\r',
            '\n',
        ));
    }
    loop
        invariant
            it.obeys_prophetic_iter_laws(),
            0 <= k <= s@.len(),
            it.remaining() == s@.skip(k),
            out@ + dos2unix_seq(pend(pending_cr) + s@.skip(k), '\r', '\n') == dos2unix_seq(
                s@,
                '\r',
                '\n',
            ),
        decreases s@.len() - k,
    {
        match it.next() {
            Some(c) => {
                proof {
                    assert(s@.skip(k).len() > 0);
                    assert(c == s@.skip(k)[0]);
                    assert(s@.skip(k).drop_first() =~= s@.skip(k + 1));
                }
                let ghost suffix = pend(pending_cr) + s@.skip(k);
                if pending_cr {
                    proof {
                        assert(suffix[0] == '\r');
                        assert(suffix.len() >= 2 && suffix[1] == c);
                        assert(suffix.drop_first() =~= s@.skip(k));
                    }
                    if c == '\n' {
                        // the pending CR is directly before an LF: drop it
                        out.push('\n');
                        proof {
                            assert(dos2unix_seq(suffix, '\r', '\n') == dos2unix_seq(
                                s@.skip(k),
                                '\r',
                                '\n',
                            ));
                            assert(s@.skip(k)[0] == '\n');
                            assert(dos2unix_seq(s@.skip(k), '\r', '\n') == seq!['\n']
                                + dos2unix_seq(s@.skip(k + 1), '\r', '\n'));
                            assert(out@ + dos2unix_seq(pend(false) + s@.skip(k + 1), '\r', '\n')
                                =~= dos2unix_seq(s@, '\r', '\n'));
                        }
                        pending_cr = false;
                    } else if c == '\r' {
                        // the pending CR is kept; the new CR becomes pending
                        out.push('\r');
                        proof {
                            assert(dos2unix_seq(suffix, '\r', '\n') == seq!['\r'] + dos2unix_seq(
                                s@.skip(k),
                                '\r',
                                '\n',
                            ));
                            assert(pend(true) + s@.skip(k + 1) =~= s@.skip(k));
                            assert(out@ + dos2unix_seq(pend(true) + s@.skip(k + 1), '\r', '\n')
                                =~= dos2unix_seq(s@, '\r', '\n'));
                        }
                    } else {
                        // the pending CR is kept, and so is the current character
                        out.push('\r');
                        out.push(c);
                        proof {
                            assert(dos2unix_seq(suffix, '\r', '\n') == seq!['\r'] + dos2unix_seq(
                                s@.skip(k),
                                '\r',
                                '\n',
                            ));
                            assert(s@.skip(k)[0] == c && c != '\r');
                            assert(dos2unix_seq(s@.skip(k), '\r', '\n') == seq![c] + dos2unix_seq(
                                s@.skip(k + 1),
                                '\r',
                                '\n',
                            ));
                            assert(out@ + dos2unix_seq(pend(false) + s@.skip(k + 1), '\r', '\n')
                                =~= dos2unix_seq(s@, '\r', '\n'));
                        }
                        pending_cr = false;
                    }
                } else {
                    proof {
                        assert(suffix =~= s@.skip(k));
                    }
                    if c == '\r' {
                        // hold the CR back until the next character is known
                        pending_cr = true;
                        proof {
                            assert(pend(true) + s@.skip(k + 1) =~= s@.skip(k));
                        }
                    } else {
                        out.push(c);
                        proof {
                            assert(s@.skip(k)[0] == c && c != '\r');
                            assert(dos2unix_seq(s@.skip(k), '\r', '\n') == seq![c] + dos2unix_seq(
                                s@.skip(k + 1),
                                '\r',
                                '\n',
                            ));
                            assert(out@ + dos2unix_seq(pend(false) + s@.skip(k + 1), '\r', '\n')
                                =~= dos2unix_seq(s@, '\r', '\n'));
                        }
                    }
                }
                proof {
                    k = k + 1;
                }
            },
            None => {
                proof {
                    assert(s@.skip(k).len() == 0);
                    assert(k == s@.len());
                }
                if pending_cr {
                    // a trailing lone CR is preserved
                    out.push('\r');
                    proof {
                        assert(pend(true) + s@.skip(k) =~= seq!['\r']);
                        assert(seq!['\r'].drop_first() =~= Seq::<char>::empty());
                        assert(dos2unix_seq(Seq::<char>::empty(), '\r', '\n') =~= Seq::<
                            char,
                        >::empty());
                        assert(dos2unix_seq(seq!['\r'], '\r', '\n') =~= seq!['\r']);
                        assert(out@ =~= dos2unix_seq(s@, '\r', '\n'));
                    }
                } else {
                    proof {
                        assert(pend(false) + s@.skip(k) =~= Seq::<char>::empty());
                        assert(dos2unix_seq(Seq::<char>::empty(), '\r', '\n') =~= Seq::<
                            char,
                        >::empty());
                        assert(out@ =~= dos2unix_seq(s@, '\r', '\n'));
                    }
                }
                return out;
            },
        }
    }
}

/// Builds the DOS form of `s` in a fresh buffer: every `\n` whose
/// predecessor is not a `\r` gains a `\r` in front of it, everything else
/// is kept.
fn build_dos(s: &str) -> (out: String)
    ensures
        out@ == unix2dos_seq(s@, false, '\r', '\n'),
{
    let mut out = String::new();
    let mut it = s.chars();
    let mut prev_cr = false;
    let ghost mut k: int = 0;
    proof {
        assert(s@.skip(0) =~= s@);
        assert(out@ + unix2dos_seq(s@.skip(0), false, '\r', '\n') =~= unix2dos_seq(
            s@,
            false,
            '\r',
            '\n',
        ));
    }
    loop
        invariant
            it.obeys_prophetic_iter_laws(),
            0 <= k <= s@.len(),
            it.remaining() == s@.skip(k),
            out@ + unix2dos_seq(s@.skip(k), prev_cr, '\r', '\n') == unix2dos_seq(
                s@,
                false,
                '\r',
                '\n',
            ),
        decreases s@.len() - k,
    {
        match it.next() {
            Some(c) => {
                proof {
                    assert(s@.skip(k).len() > 0);
                    assert(c == s@.skip(k)[0]);
                    assert(s@.skip(k).drop_first() =~= s@.skip(k + 1));
                }
                if c == '\n' && !prev_cr {
                    out.push('\r');
                    out.push('\n');
                    proof {
                        assert(unix2dos_seq(s@.skip(k), prev_cr, '\r', '\n') == seq!['\r', '\n']
                            + unix2dos_seq(s@.skip(k + 1), c == '\r', '\r', '\n'));
                        assert(out@ + unix2dos_seq(s@.skip(k + 1), c == '\r', '\r', '\n')
                            =~= unix2dos_seq(s@, false, '\r', '\n'));
                    }
                } else {
                    out.push(c);
                    proof {
                        assert(unix2dos_seq(s@.skip(k), prev_cr, '\r', '\n') == seq![c]
                            + unix2dos_seq(s@.skip(k + 1), c == '\r', '\r', '\n'));
                        assert(out@ + unix2dos_seq(s@.skip(k + 1), c == '\r', '\r', '\n')
                            =~= unix2dos_seq(s@, false, '\r', '\n'));
                    }
                }
                prev_cr = c == '\r';
                proof {
                    k = k + 1;
                }
            },
            None => {
                proof {
                    assert(s@.skip(k).len() == 0);
                    assert(unix2dos_seq(s@.skip(k), prev_cr, '\r', '\n') =~= Seq::<char>::empty());
                    assert(out@ =~= unix2dos_seq(s@, false, '\r', '\n'));
                }
                return out;
            },
        }
    }
}

/// Converts DOS-style line endings (`\r\n`) to UNIX-style (`\n`).
///
/// The input string may already be in correct format, so this function
/// returns `Cow<str>`, to avoid unnecessary allocation and copying: the
/// input is returned borrowed exactly when it contains no `\r\n` pair.
/// Lone `\r` characters are preserved.
pub fn dos2unix<'a>(input: &'a str) -> (r: Cow<'a, str>)
    ensures
        r@ == dos2unix_seq(input@, '\r', '\n'),
        r matches Cow::Borrowed(b) ==> b == input,
        (r matches Cow::Borrowed(_)) <==> !contains_pair(input@, '\r', '\n'),
{
    if has_crlf(input) {
        Cow::Owned(build_unix(input))
    } else {
        proof {
            lemma_dos2unix_noop(input@, '\r', '\n');
        }
        Cow::Borrowed(input)
    }
}

/// Converts UNIX-style line endings (`\n`) to DOS-style (`\r\n`).
///
/// The input string may already be in correct format, so this function
/// returns `Cow<str>`, to avoid unnecessary allocation and copying: the
/// input is returned borrowed exactly when every `\n` in it is already
/// directly preceded by a `\r`.  Already present DOS line breaks are
/// respected, so no `\r` is ever doubled.
pub fn unix2dos<'a>(input: &'a str) -> (r: Cow<'a, str>)
    ensures
        r@ == unix2dos_seq(input@, false, '\r', '\n'),
        r matches Cow::Borrowed(b) ==> b == input,
        (r matches Cow::Borrowed(_)) <==> lf_paired(input@, false, '\r', '\n'),
{
    if has_unpaired_lf(input) {
        Cow::Owned(build_dos(input))
    } else {
        proof {
            lemma_unix2dos_noop(input@, false, '\r', '\n');
        }
        Cow::Borrowed(input)
    }
}

/// Extension trait for converting between DOS and UNIX linebreaks.
pub trait AsRefStrExt {
    /// The text being converted.
    spec fn text(&self) -> Seq<char>;

    /// Converts linebreaks to DOS (`\r\n`).  See `unix2dos` for more info.
    fn to_dos<'a>(&'a self) -> (r: Cow<'a, str>)
        ensures
            r@ == unix2dos_seq(self.text(), false, '\r', '\n'),
            (r matches Cow::Borrowed(_)) <==> lf_paired(self.text(), false, '\r', '\n'),
    ;

    /// Converts linebreaks to UNIX (`\n`).  See `dos2unix` for more info.
    fn to_unix<'a>(&'a self) -> (r: Cow<'a, str>)
        ensures
            r@ == dos2unix_seq(self.text(), '\r', '\n'),
            (r matches Cow::Borrowed(_)) <==> !contains_pair(self.text(), '\r', '\n'),
    ;
}

impl AsRefStrExt for str {
    open spec fn text(&self) -> Seq<char> {
        self@
    }

    fn to_dos<'a>(&'a self) -> (r: Cow<'a, str>) {
        unix2dos(self)
    }

    fn to_unix<'a>(&'a self) -> (r: Cow<'a, str>) {
        dos2unix(self)
    }
}

impl AsRefStrExt for String {
    open spec fn text(&self) -> Seq<char> {
        self@
    }

    fn to_dos<'a>(&'a self) -> (r: Cow<'a, str>) {
        unix2dos(self.as_str())
    }

    fn to_unix<'a>(&'a self) -> (r: Cow<'a, str>) {
        dos2unix(self.as_str())
    }
}

} // verus!
