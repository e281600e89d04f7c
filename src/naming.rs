use vstd::prelude::*;

use crate::profile::PixelMode;

verus! {

/// Decimal digits of `n`, most significant first, without leading zeros.
pub open spec fn decimal(n: nat) -> Seq<u8>
    decreases n,
{
    if n < 10 {
        seq![(48 + n) as u8]
    } else {
        decimal(n / 10).push((48 + n % 10) as u8)
    }
}

/// `n` in decimal, zero-padded on the left to at least three digits.
pub open spec fn ordinal_text(n: nat) -> Seq<u8> {
    let d = decimal(n);
    let pad: int = if d.len() < 3 {
        3 - d.len()
    } else {
        0
    };
    Seq::new(pad as nat, |i: int| 48u8) + d
}

pub open spec fn is_digit(b: u8) -> bool {
    48 <= b <= 57
}

/// The number that a string of decimal digits reads as.
pub open spec fn digits_value(s: Seq<u8>) -> nat
    decreases s.len(),
{
    if s.len() == 0 {
        0
    } else {
        digits_value(s.drop_last()) * 10 + (s.last() - 48) as nat
    }
}

proof fn lemma_decimal(n: nat)
    ensures
        digits_value(decimal(n)) == n,
        decimal(n).len() >= 1,
        forall|i: int| 0 <= i < decimal(n).len() ==> is_digit(#[trigger] decimal(n)[i]),
    decreases n,
{
    if n < 10 {
        assert(decimal(n).drop_last() =~= Seq::<u8>::empty());
        assert(digits_value(decimal(n)) == digits_value(Seq::<u8>::empty()) * 10 + n);
    } else {
        lemma_decimal(n / 10);
        assert(decimal(n).drop_last() =~= decimal(n / 10));
        assert(decimal(n).last() - 48 == n % 10);
        assert(digits_value(decimal(n)) == (n / 10) * 10 + n % 10);
        assert forall|i: int| 0 <= i < decimal(n).len() implies is_digit(#[trigger] decimal(n)[i]) by {
            if i < decimal(n / 10).len() {
                assert(decimal(n)[i] == decimal(n / 10)[i]);
            }
        }
    }
}

proof fn lemma_leading_zeros(z: Seq<u8>, s: Seq<u8>)
    requires
        forall|i: int| 0 <= i < z.len() ==> z[i] == 48u8,
    ensures
        digits_value(z + s) == digits_value(s),
    decreases s.len(),
{
    if s.len() == 0 {
        assert(z + s =~= z);
        lemma_zeros_value(z);
    } else {
        assert((z + s).drop_last() =~= z + s.drop_last());
        lemma_leading_zeros(z, s.drop_last());
    }
}

proof fn lemma_zeros_value(z: Seq<u8>)
    requires
        forall|i: int| 0 <= i < z.len() ==> z[i] == 48u8,
    ensures
        digits_value(z) == 0,
    decreases z.len(),
{
    if z.len() > 0 {
        lemma_zeros_value(z.drop_last());
    }
}

/// An ordinal is at least three decimal digits long and reads back as the
/// number it was made from.
pub proof fn lemma_ordinal_text(n: nat)
    ensures
        digits_value(ordinal_text(n)) == n,
        ordinal_text(n).len() >= 3,
        forall|i: int| 0 <= i < ordinal_text(n).len() ==> is_digit(#[trigger] ordinal_text(n)[i]),
{
    let d = decimal(n);
    lemma_decimal(n);
    let pad: int = if d.len() < 3 {
        3 - d.len()
    } else {
        0
    };
    let z = Seq::new(pad as nat, |i: int| 48u8);
    lemma_leading_zeros(z, d);
    assert forall|i: int| 0 <= i < ordinal_text(n).len() implies is_digit(#[trigger] ordinal_text(n)[i]) by {
        if i >= pad {
            assert(ordinal_text(n)[i] == d[i - pad]);
        }
    }
}

/// Appends the decimal digits of `n`.
fn push_decimal(n: usize, out: &mut Vec<u8>)
    ensures
        final(out)@ == old(out)@ + decimal(n as nat),
    decreases n,
{
    if n >= 10 {
        push_decimal(n / 10, out);
    }
    out.push((48 + n % 10) as u8);
    proof {
        if n >= 10 {
            assert(final(out)@ =~= old(out)@ + decimal(n as nat));
        } else {
            assert(final(out)@ =~= old(out)@ + decimal(n as nat));
        }
    }
}

/// `n` in decimal, zero-padded on the left to at least three digits.
pub fn ordinal(n: usize) -> (r: Vec<u8>)
    ensures
        r@ == ordinal_text(n as nat),
{
    let mut digits: Vec<u8> = Vec::new();
    push_decimal(n, &mut digits);
    assert(digits@ =~= decimal(n as nat));
    let mut out: Vec<u8> = Vec::new();
    let len = digits.len();
    let pad: usize = if len < 3 {
        3 - len
    } else {
        0
    };
    let mut i: usize = 0;
    while i < pad
        invariant
            i <= pad,
            out@ =~= Seq::new(i as nat, |j: int| 48u8),
        decreases pad - i,
    {
        out.push(48u8);
        i = i + 1;
    }
    let mut k: usize = 0;
    while k < len
        invariant
            len == digits@.len(),
            k <= len,
            out@ =~= Seq::new(pad as nat, |j: int| 48u8) + digits@.take(k as int),
        decreases len - k,
    {
        out.push(digits[k]);
        k = k + 1;
        assert(digits@.take(k as int) =~= digits@.take(k - 1).push(digits@[k - 1]));
    }
    assert(digits@.take(len as int) =~= digits@);
    out
}


/// Index of the last `b` in `s`, or -1 where there is none.
pub open spec fn last_index_of(s: Seq<u8>, b: u8) -> int
    decreases s.len(),
{
    if s.len() == 0 {
        -1
    } else if s.last() == b {
        s.len() - 1
    } else {
        last_index_of(s.drop_last(), b)
    }
}

proof fn lemma_last_index_of_range(s: Seq<u8>, b: u8)
    ensures
        -1 <= last_index_of(s, b) < s.len(),
    decreases s.len(),
{
    if s.len() > 0 && s.last() != b {
        lemma_last_index_of_range(s.drop_last(), b);
    }
}

/// Index of the last `b` in `s`, or -1 where there is none.
fn find_last(s: &Vec<u8>, b: u8) -> (r: Option<usize>)
    ensures
        match r {
            Some(k) => k == last_index_of(s@, b),
            None => last_index_of(s@, b) == -1,
        },
{
    let mut i: usize = s.len();
    assert(s@.take(i as int) =~= s@);
    while i > 0
        invariant
            i <= s@.len(),
            last_index_of(s@, b) == last_index_of(s@.take(i as int), b),
        decreases i,
    {
        assert(s@.take(i as int).drop_last() =~= s@.take(i - 1));
        if s[i - 1] == b {
            return Some(i - 1);
        }
        i = i - 1;
    }
    assert(s@.take(0) =~= Seq::<u8>::empty());
    None
}

/// The last component of a `/`-separated path.
pub open spec fn base_name(path: Seq<u8>) -> Seq<u8> {
    path.skip(last_index_of(path, 47u8) + 1)
}

/// A file name without its final extension: the part before the last `.`,
/// unless that dot starts the name; `.` and `..` have no stem.
pub open spec fn name_stem(name: Seq<u8>) -> Seq<u8> {
    if name =~= seq![46u8] || name =~= seq![46u8, 46u8] {
        Seq::empty()
    } else if last_index_of(name, 46u8) > 0 {
        name.take(last_index_of(name, 46u8))
    } else {
        name
    }
}

pub open spec fn is_continuation(b: u8) -> bool {
    0x80 <= b <= 0xbf
}

/// Length of the well-formed UTF-8 encoding of one character at the start
/// of `s`, or 0 where none starts there.
pub open spec fn utf8_char_len(s: Seq<u8>) -> int {
    if s.len() == 0 {
        0
    } else if s[0] < 0x80 {
        1
    } else if 0xc2 <= s[0] <= 0xdf {
        if s.len() >= 2 && is_continuation(s[1]) {
            2
        } else {
            0
        }
    } else if 0xe0 <= s[0] <= 0xef {
        let lo: u8 = if s[0] == 0xe0 {
            0xa0
        } else {
            0x80
        };
        let hi: u8 = if s[0] == 0xed {
            0x9f
        } else {
            0xbf
        };
        if s.len() >= 3 && lo <= s[1] <= hi && is_continuation(s[2]) {
            3
        } else {
            0
        }
    } else if 0xf0 <= s[0] <= 0xf4 {
        let lo: u8 = if s[0] == 0xf0 {
            0x90
        } else {
            0x80
        };
        let hi: u8 = if s[0] == 0xf4 {
            0x8f
        } else {
            0xbf
        };
        if s.len() >= 4 && lo <= s[1] <= hi && is_continuation(s[2]) && is_continuation(s[3]) {
            4
        } else {
            0
        }
    } else {
        0
    }
}

/// `s` with every byte that is not part of a well-formed UTF-8 character
/// replaced by `_`.
pub open spec fn sanitized(s: Seq<u8>) -> Seq<u8>
    decreases s.len(),
{
    if s.len() == 0 {
        s
    } else {
        let n = utf8_char_len(s);
        if n == 0 {
            seq![95u8] + sanitized(s.skip(1))
        } else {
            s.take(n) + sanitized(s.skip(n))
        }
    }
}

/// The stem under which an input's frame is saved: its file name without
/// extension and with stray bytes replaced, or `foo` where that is empty.
pub open spec fn display_stem(path: Seq<u8>) -> Seq<u8> {
    let s = sanitized(name_stem(base_name(path)));
    if s.len() == 0 {
        seq![102u8, 111u8, 111u8]
    } else {
        s
    }
}

/// Length of the well-formed UTF-8 character at `s[i..]`, or 0.
fn char_len_at(s: &Vec<u8>, i: usize) -> (r: usize)
    requires
        i < s@.len(),
    ensures
        r == utf8_char_len(s@.skip(i as int)),
        r <= s@.len() - i,
{
    let rest = s.len() - i;
    let b0 = s[i];
    if b0 < 0x80 {
        1
    } else if 0xc2 <= b0 && b0 <= 0xdf {
        if rest >= 2 && 0x80 <= s[i + 1] && s[i + 1] <= 0xbf {
            2
        } else {
            0
        }
    } else if 0xe0 <= b0 && b0 <= 0xef {
        let lo: u8 = if b0 == 0xe0 {
            0xa0
        } else {
            0x80
        };
        let hi: u8 = if b0 == 0xed {
            0x9f
        } else {
            0xbf
        };
        if rest >= 3 && lo <= s[i + 1] && s[i + 1] <= hi && 0x80 <= s[i + 2] && s[i + 2] <= 0xbf {
            3
        } else {
            0
        }
    } else if 0xf0 <= b0 && b0 <= 0xf4 {
        let lo: u8 = if b0 == 0xf0 {
            0x90
        } else {
            0x80
        };
        let hi: u8 = if b0 == 0xf4 {
            0x8f
        } else {
            0xbf
        };
        if rest >= 4 && lo <= s[i + 1] && s[i + 1] <= hi && 0x80 <= s[i + 2] && s[i + 2] <= 0xbf
            && 0x80 <= s[i + 3] && s[i + 3] <= 0xbf {
            4
        } else {
            0
        }
    } else {
        0
    }
}

/// Replaces every byte that is not part of a well-formed UTF-8 character by `_`.
pub fn sanitize(s: &Vec<u8>) -> (r: Vec<u8>)
    ensures
        r@ == sanitized(s@),
{
    let n = s.len();
    let mut out: Vec<u8> = Vec::new();
    let mut i: usize = 0;
    assert(s@.skip(0) =~= s@);
    while i < n
        invariant
            n == s@.len(),
            i <= n,
            out@ + sanitized(s@.skip(i as int)) == sanitized(s@),
        decreases n - i,
    {
        let ghost before = out@;
        let ghost rest = s@.skip(i as int);
        let k = char_len_at(s, i);
        if k == 0 {
            out.push(95u8);
            proof {
                assert(rest.skip(1) =~= s@.skip(i + 1));
                assert(out@ + sanitized(s@.skip(i + 1)) =~= before + sanitized(rest));
            }
            i = i + 1;
        } else {
            let mut j: usize = 0;
            while j < k
                invariant
                    n == s@.len(),
                    i + k <= n,
                    j <= k,
                    out@ =~= before + s@.subrange(i as int, i + j),
                decreases k - j,
            {
                out.push(s[i + j]);
                j = j + 1;
            }
            proof {
                assert(rest.take(k as int) =~= s@.subrange(i as int, i + k));
                assert(rest.skip(k as int) =~= s@.skip(i + k));
                assert(out@ + sanitized(s@.skip(i + k)) =~= before + sanitized(rest));
            }
            i = i + k;
        }
    }
    assert(s@.skip(n as int) =~= Seq::<u8>::empty());
    assert(out@ + sanitized(s@.skip(n as int)) =~= out@);
    out
}


/// Bytes `lo..hi` of `s`.
fn copy_range(s: &Vec<u8>, lo: usize, hi: usize) -> (r: Vec<u8>)
    requires
        lo <= hi <= s@.len(),
    ensures
        r@ == s@.subrange(lo as int, hi as int),
{
    let mut out: Vec<u8> = Vec::with_capacity(hi - lo);
    let mut i: usize = lo;
    while i < hi
        invariant
            lo <= i <= hi,
            hi <= s@.len(),
            out@ =~= s@.subrange(lo as int, i as int),
        decreases hi - i,
    {
        out.push(s[i]);
        i = i + 1;
    }
    out
}

/// The stem under which the frame of the input at `path` is saved: the file
/// name without directory and final extension, every byte that is not part
/// of a well-formed UTF-8 character replaced by `_`, and `foo` in place of
/// an empty stem.
pub fn file_stem(path: &Vec<u8>) -> (r: Vec<u8>)
    ensures
        r@ == display_stem(path@),
{
    let plen = path.len();
    proof {
        lemma_last_index_of_range(path@, 47u8);
    }
    let start: usize = match find_last(path, 47u8) {
        Some(k) => k + 1,
        None => 0,
    };
    let name = copy_range(path, start, plen);
    assert(name@ =~= base_name(path@));
    let n = name.len();
    let bare = if (n == 1 && name[0] == 46u8) || (n == 2 && name[0] == 46u8 && name[1] == 46u8) {
        proof {
            if n == 1 {
                assert(name@ =~= seq![46u8]);
            } else {
                assert(name@ =~= seq![46u8, 46u8]);
            }
        }
        Vec::new()
    } else {
        proof {
            if name@ =~= seq![46u8] {
                assert(name@[0] == 46u8);
            }
            if name@ =~= seq![46u8, 46u8] {
                assert(name@[0] == 46u8 && name@[1] == 46u8);
            }
            lemma_last_index_of_range(name@, 46u8);
        }
        match find_last(&name, 46u8) {
            Some(d) => if d > 0 {
                copy_range(&name, 0, d)
            } else {
                name
            },
            None => name,
        }
    };
    proof {
        assert(bare@ =~= name_stem(base_name(path@)));
    }
    let clean = sanitize(&bare);
    if clean.len() == 0 {
        let foo: Vec<u8> = vec![102u8, 111u8, 111u8];
        assert(foo@ =~= seq![102u8, 111u8, 111u8]);
        foo
    } else {
        clean
    }
}

/// `{ordinal}.{stem}.{ext}`, the ordinal zero-padded to at least three digits.
pub open spec fn output_name_of(ordinal: nat, stem: Seq<u8>, ext: Seq<u8>) -> Seq<u8> {
    ordinal_text(ordinal) + seq![46u8] + stem + seq![46u8] + ext
}

/// Appends `s` to `out`.
fn append(out: &mut Vec<u8>, s: &Vec<u8>)
    ensures
        final(out)@ == old(out)@ + s@,
{
    let n = s.len();
    let mut i: usize = 0;
    while i < n
        invariant
            n == s@.len(),
            i <= n,
            out@ =~= old(out)@ + s@.take(i as int),
        decreases n - i,
    {
        out.push(s[i]);
        i = i + 1;
        assert(s@.take(i as int) =~= s@.take(i - 1).push(s@[i - 1]));
    }
    assert(s@.take(n as int) =~= s@);
}

/// The file name `{ordinal}.{stem}.{ext}` of a frame, the ordinal
/// zero-padded to at least three digits.
pub fn output_name(ordinal_index: usize, stem: &Vec<u8>, ext: &Vec<u8>) -> (r: Vec<u8>)
    ensures
        r@ == output_name_of(ordinal_index as nat, stem@, ext@),
{
    let mut out = ordinal(ordinal_index);
    out.push(46u8);
    append(&mut out, stem);
    out.push(46u8);
    append(&mut out, ext);
    assert(out@ =~= output_name_of(ordinal_index as nat, stem@, ext@));
    out
}

/// The names under which the frames of `paths`, taken in this order, are
/// saved: the `i`-th input gets ordinal `i` whether or not the others succeed.
pub fn output_names(paths: &Vec<Vec<u8>>, ext: &Vec<u8>) -> (r: Vec<Vec<u8>>)
    ensures
        r@.len() == paths@.len(),
        forall|i: int|
            0 <= i < paths@.len() ==> #[trigger] r@[i]@ == output_name_of(
                i as nat,
                display_stem(paths@[i]@),
                ext@,
            ),
{
    let n = paths.len();
    let mut out: Vec<Vec<u8>> = Vec::with_capacity(n);
    let mut i: usize = 0;
    while i < n
        invariant
            n == paths@.len(),
            i <= n,
            out@.len() == i,
            forall|j: int|
                0 <= j < i ==> #[trigger] out@[j]@ == output_name_of(
                    j as nat,
                    display_stem(paths@[j]@),
                    ext@,
                ),
        decreases n - i,
    {
        let stem = file_stem(&paths[i]);
        out.push(output_name(i, &stem, ext));
        i = i + 1;
    }
    out
}

/// The name of every frame starts with its ordinal: three or more decimal
/// digits that read back as the ordinal, then a dot. Over a batch the
/// ordinals run densely from zero in input order.
pub proof fn lemma_output_name_ordinal(ordinal: nat, stem: Seq<u8>, ext: Seq<u8>)
    ensures
        ({
            let name = output_name_of(ordinal, stem, ext);
            let k = ordinal_text(ordinal).len() as int;
            &&& k >= 3
            &&& forall|i: int| 0 <= i < k ==> is_digit(#[trigger] name[i])
            &&& name[k] == 46u8
            &&& digits_value(name.take(k)) == ordinal
        }),
{
    lemma_ordinal_text(ordinal);
    let name = output_name_of(ordinal, stem, ext);
    let k = ordinal_text(ordinal).len() as int;
    assert(name.take(k) =~= ordinal_text(ordinal));
    assert forall|i: int| 0 <= i < k implies is_digit(#[trigger] name[i]) by {
        assert(name[i] == ordinal_text(ordinal)[i]);
    }
}

/// Number of decimal digits at the start of `s`.
pub open spec fn digit_prefix_len(s: Seq<u8>) -> nat
    decreases s.len(),
{
    if s.len() == 0 || !is_digit(s[0]) {
        0
    } else {
        1 + digit_prefix_len(s.skip(1))
    }
}

/// The number that the leading digits of a frame's file name read as.
pub open spec fn leading_ordinal(name: Seq<u8>) -> nat {
    digits_value(name.take(digit_prefix_len(name) as int))
}

proof fn lemma_digit_prefix_len(s: Seq<u8>, k: int)
    requires
        0 <= k < s.len(),
        forall|i: int| 0 <= i < k ==> is_digit(#[trigger] s[i]),
        !is_digit(s[k]),
    ensures
        digit_prefix_len(s) == k,
    decreases k,
{
    if k > 0 {
        assert forall|i: int| 0 <= i < k - 1 implies is_digit(#[trigger] s.skip(1)[i]) by {
            assert(s.skip(1)[i] == s[i + 1]);
        }
        lemma_digit_prefix_len(s.skip(1), k - 1);
    }
}

/// Over a batch, the names carry the ordinals 0 to N-1 in input order: the
/// leading digits of the `i`-th name read as `i`, however the processing of
/// any input turns out, since the names are fixed before it starts.
pub proof fn lemma_batch_ordinals_dense(paths: Seq<Seq<u8>>, ext: Seq<u8>, names: Seq<Seq<u8>>)
    requires
        names.len() == paths.len(),
        forall|i: int|
            0 <= i < paths.len() ==> #[trigger] names[i] == output_name_of(
                i as nat,
                display_stem(paths[i]),
                ext,
            ),
    ensures
        forall|i: int| 0 <= i < names.len() ==> #[trigger] leading_ordinal(names[i]) == i,
{
    assert forall|i: int| 0 <= i < names.len() implies #[trigger] leading_ordinal(names[i]) == i by {
        let stem = display_stem(paths[i]);
        lemma_output_name_ordinal(i as nat, stem, ext);
        let k = ordinal_text(i as nat).len() as int;
        lemma_digit_prefix_len(names[i], k);
    }
}

/// Distinct ordinals give distinct names.
pub proof fn lemma_output_names_distinct(a: nat, b: nat, sa: Seq<u8>, sb: Seq<u8>, ext: Seq<u8>)
    requires
        a != b,
    ensures
        output_name_of(a, sa, ext) != output_name_of(b, sb, ext),
{
    lemma_output_name_ordinal(a, sa, ext);
    lemma_output_name_ordinal(b, sb, ext);
    let na = output_name_of(a, sa, ext);
    let nb = output_name_of(b, sb, ext);
    let ka = ordinal_text(a).len() as int;
    let kb = ordinal_text(b).len() as int;
    if na == nb {
        if ka < kb {
            assert(is_digit(nb[ka]));
        } else if kb < ka {
            assert(is_digit(na[kb]));
        } else {
            assert(na.take(ka) == nb.take(kb));
        }
    }
}


/// Extension of a device-bound frame file: `gray` for monochrome and
/// grayscale panels, `565` for RGB565 panels.
pub open spec fn extension_of(mode: PixelMode) -> Seq<u8> {
    match mode {
        PixelMode::Rgb565 => seq![53u8, 54u8, 53u8],
        _ => seq![103u8, 114u8, 97u8, 121u8],
    }
}

/// Extension of the frame files written for panels of this mode.
pub fn frame_extension(mode: PixelMode) -> (r: Vec<u8>)
    ensures
        r@ == extension_of(mode),
{
    match mode {
        PixelMode::Rgb565 => {
            let e: Vec<u8> = vec![53u8, 54u8, 53u8];
            assert(e@ =~= extension_of(mode));
            e
        },
        _ => {
            let e: Vec<u8> = vec![103u8, 114u8, 97u8, 121u8];
            assert(e@ =~= extension_of(mode));
            e
        },
    }
}

} // verus!
