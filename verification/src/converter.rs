//! The byte-oriented converter: configured once with a direction, a
//! code-unit width and a byte order, then invoked on raw byte buffers of
//! width-aligned length.

use vstd::prelude::*;

use crate::errors::CharSizeZero;
use crate::errors::ConversionError;
use crate::errors::WrongInputLen;
use crate::model::bytes_of;
use crate::model::dos2unix_seq;
use crate::model::lemma_bytes_of_cons;
use crate::model::lemma_units_of_step;
use crate::model::units_of;
use crate::model::unix2dos_seq;
use crate::utils::build_char;
use crate::utils::char_pattern;
use crate::utils::ByteOrder;
use crate::utils::Conversion;
use crate::utils::CR;
use crate::utils::LF;

verus! {

/// What `convert` returns on an aligned input: the input cut into units of
/// `w` bytes, scanned in the requested direction with `cr` and `lf` as the
/// newline patterns, and flattened back to bytes.
pub open spec fn spec_convert(
    conversion: Conversion,
    input: Seq<u8>,
    w: nat,
    cr: Seq<u8>,
    lf: Seq<u8>,
) -> Seq<u8> {
    match conversion {
        Conversion::Dos2unix => bytes_of(dos2unix_seq(units_of(input, w), cr, lf)),
        Conversion::Unix2dos => bytes_of(unix2dos_seq(units_of(input, w), false, cr, lf)),
    }
}

/// Whether the `pat@.len()` bytes of `input` starting at `start` are
/// exactly `pat`.
fn unit_matches(input: &[u8], start: usize, pat: &Vec<u8>) -> (r: bool)
    requires
        start + pat@.len() <= input@.len(),
    ensures
        r == (input@.subrange(start as int, start as int + pat@.len() as int) == pat@),
{
    let n = pat.len();
    let len = input.len();
    let ghost window = input@.subrange(start as int, start as int + n as int);
    let mut k: usize = 0;
    while k < n
        invariant
            n == pat@.len(),
            len == input@.len(),
            start + n <= len,
            k <= n,
            window == input@.subrange(start as int, start as int + n as int),
            forall|j: int| 0 <= j < k ==> window[j] == pat@[j],
        decreases n - k,
    {
        if input[start + k] != pat[k] {
            proof {
                assert(window[k as int] == input@[start + k as int]);
            }
            return false;
        }
        k = k + 1;
        proof {
            assert(window[k - 1] == input@[start + k - 1]);
        }
    }
    proof {
        assert(window =~= pat@);
    }
    true
}

/// Appends the `w` bytes of `input` starting at `start` to `output`.
fn push_unit(output: &mut Vec<u8>, input: &[u8], start: usize, w: usize)
    requires
        start + w <= input@.len(),
    ensures
        final(output)@ == old(output)@ + input@.subrange(start as int, start as int + w as int),
{
    let len = input.len();
    let mut k: usize = 0;
    proof {
        assert(output@ =~= old(output)@ + input@.subrange(start as int, start as int));
    }
    while k < w
        invariant
            len == input@.len(),
            start + w <= len,
            k <= w,
            output@ == old(output)@ + input@.subrange(start as int, start as int + k as int),
        decreases w - k,
    {
        output.push(input[start + k]);
        k = k + 1;
        proof {
            assert(output@ =~= old(output)@ + input@.subrange(
                start as int,
                start as int + k as int,
            ));
        }
    }
}

/// Appends all of `pat` to `output`.
fn push_all(output: &mut Vec<u8>, pat: &Vec<u8>)
    ensures
        final(output)@ == old(output)@ + pat@,
{
    let n = pat.len();
    let mut k: usize = 0;
    proof {
        assert(output@ =~= old(output)@ + pat@.subrange(0, 0));
    }
    while k < n
        invariant
            n == pat@.len(),
            k <= n,
            output@ == old(output)@ + pat@.subrange(0, k as int),
        decreases n - k,
    {
        output.push(pat[k]);
        k = k + 1;
        proof {
            assert(output@ =~= old(output)@ + pat@.subrange(0, k as int));
        }
    }
    proof {
        assert(pat@.subrange(0, pat@.len() as int) =~= pat@);
    }
}

/// How often the raw byte `value` occurs in `input`.  Used only to size the
/// output buffer before a scan; correctness never depends on it.
fn count_byte(input: &[u8], value: u8) -> (n: usize)
    ensures
        n <= input@.len(),
{
    let mut n: usize = 0;
    let mut i: usize = 0;
    while i < input.len()
        invariant
            n <= i <= input@.len(),
        decreases input@.len() - i,
    {
        if input[i] == value {
            n = n + 1;
        }
        i = i + 1;
    }
    n
}

/// A converter configured with a direction, a code-unit width, and the byte
/// patterns of `CR` and `LF` at that width (derived once from the byte
/// order at construction time and reused for every scan).
pub struct Converter {
    char_size: usize,
    conversion: Conversion,
    cr: Vec<u8>,
    lf: Vec<u8>,
}

impl Converter {
    /// The configured code-unit width.
    pub closed spec fn spec_char_size(&self) -> usize {
        self.char_size
    }

    /// The configured direction.
    pub closed spec fn spec_conversion(&self) -> Conversion {
        self.conversion
    }

    /// The bytes of one `CR` code unit at the configured width and order.
    pub closed spec fn cr_pattern(&self) -> Seq<u8> {
        self.cr@
    }

    /// The bytes of one `LF` code unit at the configured width and order.
    pub closed spec fn lf_pattern(&self) -> Seq<u8> {
        self.lf@
    }

    /// The stored patterns are always exactly one code unit wide (one byte
    /// for the invalid width zero, which `convert` rejects before looking
    /// at them).
    #[verifier::type_invariant]
    closed spec fn wf(&self) -> bool {
        &&& self.cr@.len() == (if self.char_size == 0 {
            1int
        } else {
            self.char_size as int
        })
        &&& self.lf@.len() == (if self.char_size == 0 {
            1int
        } else {
            self.char_size as int
        })
    }

    /// Returns Converter with customized properties
    ///
    /// # Arguments
    /// * `conversion` - type of conversion to perform
    /// * `char_size` - how many bytes to interpret as a character. Should be `1` for UTF8, `2` for UTF16 etc.
    /// * `byte_order` - Byte order. This value does not matter if `char_size == 1`
    pub fn new(conversion: Conversion, char_size: usize, byte_order: ByteOrder) -> (c: Converter)
        ensures
            c.spec_conversion() == conversion,
            c.spec_char_size() == char_size,
            char_size >= 1 ==> c.cr_pattern() == char_pattern(CR, char_size as nat, byte_order),
            char_size >= 1 ==> c.lf_pattern() == char_pattern(LF, char_size as nat, byte_order),
    {
        let cr: Vec<u8> = build_char(CR, char_size, &byte_order);
        let lf: Vec<u8> = build_char(LF, char_size, &byte_order);

        Converter { char_size, conversion, cr, lf }
    }

    /// Returns UTF8-configured Converter
    pub fn utf8(conversion: Conversion) -> (c: Converter)
        ensures
            c.spec_conversion() == conversion,
            c.spec_char_size() == 1,
            c.cr_pattern() == char_pattern(CR, 1, ByteOrder::BigEndian),
            c.lf_pattern() == char_pattern(LF, 1, ByteOrder::BigEndian),
    {
        Converter::new(conversion, 1, ByteOrder::BigEndian)
    }

    /// Returns UTF16LE-configured Converter
    pub fn utf16le(conversion: Conversion) -> (c: Converter)
        ensures
            c.spec_conversion() == conversion,
            c.spec_char_size() == 2,
            c.cr_pattern() == char_pattern(CR, 2, ByteOrder::LittleEndian),
            c.lf_pattern() == char_pattern(LF, 2, ByteOrder::LittleEndian),
    {
        Converter::new(conversion, 2, ByteOrder::LittleEndian)
    }

    /// Returns UTF16BE-configured Converter
    pub fn utf16be(conversion: Conversion) -> (c: Converter)
        ensures
            c.spec_conversion() == conversion,
            c.spec_char_size() == 2,
            c.cr_pattern() == char_pattern(CR, 2, ByteOrder::BigEndian),
            c.lf_pattern() == char_pattern(LF, 2, ByteOrder::BigEndian),
    {
        Converter::new(conversion, 2, ByteOrder::BigEndian)
    }

    /// Returns UTF32LE-configured Converter
    pub fn utf32le(conversion: Conversion) -> (c: Converter)
        ensures
            c.spec_conversion() == conversion,
            c.spec_char_size() == 4,
            c.cr_pattern() == char_pattern(CR, 4, ByteOrder::LittleEndian),
            c.lf_pattern() == char_pattern(LF, 4, ByteOrder::LittleEndian),
    {
        Converter::new(conversion, 4, ByteOrder::LittleEndian)
    }

    /// Returns UTF32BE-configured Converter
    pub fn utf32be(conversion: Conversion) -> (c: Converter)
        ensures
            c.spec_conversion() == conversion,
            c.spec_char_size() == 4,
            c.cr_pattern() == char_pattern(CR, 4, ByteOrder::BigEndian),
            c.lf_pattern() == char_pattern(LF, 4, ByteOrder::BigEndian),
    {
        Converter::new(conversion, 4, ByteOrder::BigEndian)
    }

    /// The DOS-to-UNIX scan: appends to `output` every whole unit of
    /// `input` except the `CR` units that directly precede an `LF` unit.
    fn dos2unix(&self, input: &[u8], output: &mut Vec<u8>)
        requires
            self.char_size >= 1,
            self.cr@.len() == self.char_size,
            self.lf@.len() == self.char_size,
        ensures
            final(output)@ == old(output)@ + bytes_of(
                dos2unix_seq(units_of(input@, self.char_size as nat), self.cr@, self.lf@),
            ),
    {
        let w = self.char_size;
        let len = input.len();
        let ghost target = old(output)@ + bytes_of(
            dos2unix_seq(units_of(input@, w as nat), self.cr@, self.lf@),
        );
        let mut i: usize = 0;
        proof {
            assert(input@.skip(0) =~= input@);
        }
        while len - i >= w
            invariant
                w == self.char_size,
                1 <= w,
                len == input@.len(),
                i <= len,
                self.cr@.len() == w,
                self.lf@.len() == w,
                output@ + bytes_of(
                    dos2unix_seq(units_of(input@.skip(i as int), w as nat), self.cr@, self.lf@),
                ) == target,
                target == old(output)@ + bytes_of(
                    dos2unix_seq(units_of(input@, w as nat), self.cr@, self.lf@),
                ),
            decreases len - i,
        {
            let ghost su = input@.skip(i as int);
            let ghost us = units_of(su, w as nat);
            proof {
                lemma_units_of_step(su, w as nat);
                assert(su.take(w as int) =~= input@.subrange(i as int, i as int + w as int));
                assert(su.skip(w as int) =~= input@.skip(i as int + w as int));
                assert(us[0] == input@.subrange(i as int, i as int + w as int));
                assert(us.drop_first() =~= units_of(input@.skip(i as int + w as int), w as nat));
            }
            let is_cr = unit_matches(input, i, &self.cr);
            let rem = len - i;
            let has_next = rem - w >= w;
            proof {
                if has_next {
                    lemma_units_of_step(input@.skip(i as int + w as int), w as nat);
                    assert(us.len() >= 2);
                    assert(input@.skip(i as int + w as int).take(w as int) =~= input@.subrange(
                        i as int + w as int,
                        i as int + 2 * w as int,
                    ));
                    assert(us[1] == input@.subrange(i as int + w as int, i as int + 2 * w as int));
                } else {
                    assert(units_of(input@.skip(i as int + w as int), w as nat) =~= Seq::<
                        Seq<u8>,
                    >::empty());
                    assert(us.len() == 1);
                }
            }
            let drop_cr = if is_cr && has_next {
                unit_matches(input, i + w, &self.lf)
            } else {
                false
            };
            proof {
                assert(drop_cr == (us[0] == self.cr@ && us.len() >= 2 && us[1] == self.lf@));
            }
            if drop_cr {
                // this unit is a CR directly before an LF: drop it
                i = i + w;
            } else {
                push_unit(output, input, i, w);
                proof {
                    lemma_bytes_of_cons(
                        us[0],
                        dos2unix_seq(us.drop_first(), self.cr@, self.lf@),
                    );
                    assert(seq![us[0]] + us.drop_first() =~= us);
                }
                i = i + w;
            }
        }
        proof {
            assert(units_of(input@.skip(i as int), w as nat) =~= Seq::<Seq<u8>>::empty());
            assert(output@ + Seq::<u8>::empty() =~= output@);
        }
    }

    /// The UNIX-to-DOS scan: appends to `output` every whole unit of
    /// `input`, putting a `CR` unit in front of every `LF` unit whose
    /// predecessor is not already a `CR` unit.
    fn unix2dos(&self, input: &[u8], output: &mut Vec<u8>)
        requires
            self.char_size >= 1,
            self.cr@.len() == self.char_size,
            self.lf@.len() == self.char_size,
        ensures
            final(output)@ == old(output)@ + bytes_of(
                unix2dos_seq(units_of(input@, self.char_size as nat), false, self.cr@, self.lf@),
            ),
    {
        let w = self.char_size;
        let len = input.len();
        let ghost target = old(output)@ + bytes_of(
            unix2dos_seq(units_of(input@, w as nat), false, self.cr@, self.lf@),
        );
        let mut prev_cr = false;
        let mut i: usize = 0;
        proof {
            assert(input@.skip(0) =~= input@);
        }
        while len - i >= w
            invariant
                w == self.char_size,
                1 <= w,
                len == input@.len(),
                i <= len,
                self.cr@.len() == w,
                self.lf@.len() == w,
                output@ + bytes_of(
                    unix2dos_seq(
                        units_of(input@.skip(i as int), w as nat),
                        prev_cr,
                        self.cr@,
                        self.lf@,
                    ),
                ) == target,
                target == old(output)@ + bytes_of(
                    unix2dos_seq(units_of(input@, w as nat), false, self.cr@, self.lf@),
                ),
            decreases len - i,
        {
            let ghost su = input@.skip(i as int);
            let ghost us = units_of(su, w as nat);
            proof {
                lemma_units_of_step(su, w as nat);
                assert(su.take(w as int) =~= input@.subrange(i as int, i as int + w as int));
                assert(su.skip(w as int) =~= input@.skip(i as int + w as int));
                assert(us[0] == input@.subrange(i as int, i as int + w as int));
                assert(us.drop_first() =~= units_of(input@.skip(i as int + w as int), w as nat));
            }
            let is_lf = unit_matches(input, i, &self.lf);
            let is_cr = unit_matches(input, i, &self.cr);
            let ghost tail = unix2dos_seq(us.drop_first(), us[0] == self.cr@, self.cr@, self.lf@);
            if is_lf && !prev_cr {
                push_all(output, &self.cr);
                push_unit(output, input, i, w);
                proof {
                    lemma_bytes_of_cons(self.lf@, tail);
                    lemma_bytes_of_cons(self.cr@, seq![self.lf@] + tail);
                    assert(seq![self.cr@] + (seq![self.lf@] + tail) =~= seq![self.cr@, self.lf@]
                        + tail);
                    assert(bytes_of(seq![self.cr@, self.lf@] + tail) == self.cr@ + self.lf@
                        + bytes_of(tail));
                }
            } else {
                push_unit(output, input, i, w);
                proof {
                    lemma_bytes_of_cons(us[0], tail);
                }
            }
            prev_cr = is_cr;
            i = i + w;
        }
        proof {
            assert(units_of(input@.skip(i as int), w as nat) =~= Seq::<Seq<u8>>::empty());
            assert(output@ + Seq::<u8>::empty() =~= output@);
        }
    }

    /// Returns a new buffer with converted newlines.
    ///
    /// A width of zero is rejected as an invalid configuration, and an
    /// input whose length is not a multiple of the width is rejected as
    /// misaligned; in both cases no output is produced.  On an aligned
    /// input the result is the input with its newlines converted, unit by
    /// unit, in the configured direction.
    pub fn convert(&self, input: &[u8]) -> (r: Result<Vec<u8>, ConversionError>)
        ensures
            (match r {
                Ok(out) => self.spec_char_size() >= 1 && input@.len() as int % (
                self.spec_char_size() as int) == 0 && out@ == spec_convert(
                    self.spec_conversion(),
                    input@,
                    self.spec_char_size() as nat,
                    self.cr_pattern(),
                    self.lf_pattern(),
                ),
                Err(ConversionError::CharSizeZero(_)) => self.spec_char_size() == 0,
                Err(ConversionError::WrongInputLen(e)) => self.spec_char_size() >= 1 && input@.len() as int
                    % (self.spec_char_size() as int) != 0 && e.input_len == input@.len()
                    && e.char_size == self.spec_char_size(),
            }),
    {
        proof {
            use_type_invariant(self);
        }
        if self.char_size == 0 {
            return Err(ConversionError::CharSizeZero(CharSizeZero));
        }
        if input.len() % self.char_size != 0 {
            return Err(
                ConversionError::WrongInputLen(
                    WrongInputLen { input_len: input.len(), char_size: self.char_size },
                ),
            );
        }
        // crude size guessing; imprecise in multi-byte units, which only
        // costs allocator efficiency, never correctness
        let mut output: Vec<u8> = match self.conversion {
            Conversion::Dos2unix => {
                let n = count_byte(input, CR);
                Vec::with_capacity(
                    input.len().saturating_sub(n.checked_mul(self.char_size).unwrap_or(usize::MAX)),
                )
            },
            Conversion::Unix2dos => {
                let n = count_byte(input, LF);
                Vec::with_capacity(
                    input.len().saturating_add(n.checked_mul(self.char_size).unwrap_or(usize::MAX)),
                )
            },
        };
        match self.conversion {
            Conversion::Dos2unix => self.dos2unix(input, &mut output),
            Conversion::Unix2dos => self.unix2dos(input, &mut output),
        }
        Ok(output)
    }
}

/// Performs newline byte(s) conversion on given buffer
///
/// # Arguments
/// * `input` - the input buffer to convert
/// * `conv` - type of conversion to perform
/// * `char_size` - how many bytes to interpret as a character. Should be `1` for UTF8, `2` for UTF16 etc.
/// * `order` - Byte order. This value does not matter if `char_size == 1`
pub fn convert(input: &[u8], conv: &Conversion, char_size: usize, order: &ByteOrder) -> (r: Result<
    Vec<u8>,
    ConversionError,
>)
    ensures
        (match r {
            Ok(out) => char_size >= 1 && input@.len() as int % (char_size as int) == 0 && out@
                == spec_convert(
                *conv,
                input@,
                char_size as nat,
                char_pattern(CR, char_size as nat, *order),
                char_pattern(LF, char_size as nat, *order),
            ),
            Err(ConversionError::CharSizeZero(_)) => char_size == 0,
            Err(ConversionError::WrongInputLen(e)) => char_size >= 1 && input@.len() as int % (
            char_size as int) != 0 && e.input_len == input@.len() && e.char_size == char_size,
        }),
{
    let converter = Converter::new(*conv, char_size, *order);
    converter.convert(input)
}

} // verus!
