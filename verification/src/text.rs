//! Text as sequences of characters, and what the standard library does to it.
use vstd::prelude::*;
use vstd::utf8;

verus! {

/// Whether `c` has the Unicode property `White_Space`.
pub open spec fn white_space(c: char) -> bool {
    let u = c as u32;
    ||| 0x9 <= u <= 0xd
    ||| u == 0x20
    ||| u == 0x85
    ||| u == 0xa0
    ||| u == 0x1680
    ||| 0x2000 <= u <= 0x200a
    ||| u == 0x2028
    ||| u == 0x2029
    ||| u == 0x202f
    ||| u == 0x205f
    ||| u == 0x3000
}

/// `s` without the white space that it starts with.
pub open spec fn without_lead(s: Seq<char>) -> Seq<char>
    decreases s.len(),
{
    if s.len() > 0 && white_space(s[0]) {
        without_lead(s.drop_first())
    } else {
        s
    }
}

/// `s` without the white space that it ends with.
pub open spec fn without_tail(s: Seq<char>) -> Seq<char>
    decreases s.len(),
{
    if s.len() > 0 && white_space(s.last()) {
        without_tail(s.drop_last())
    } else {
        s
    }
}

/// `s` without the white space around it.
pub open spec fn trimmed(s: Seq<char>) -> Seq<char> {
    without_tail(without_lead(s))
}

/// Whether `part` stands somewhere in `s`.
pub open spec fn occurs(part: Seq<char>, s: Seq<char>) -> bool {
    exists|i: int|
        0 <= i <= s.len() - part.len() && #[trigger] s.subrange(i, i + part.len()) == part
}

/// `n` in decimal, without leading zeros.
pub open spec fn decimal(n: nat) -> Seq<char>
    decreases n,
{
    let digit = (48 + n % 10) as char;
    if n < 10 {
        seq![digit]
    } else {
        decimal(n / 10).push(digit)
    }
}

/// The text that `bytes` spell in UTF-8, with a replacement character in place
/// of each ill-formed stretch.
pub uninterp spec fn lossy_text(bytes: Seq<u8>) -> Seq<char>;

/// `str::trim`: what is left when the white space, as Unicode defines it, is
/// taken off both ends.
pub assume_specification[ str::trim ](s: &str) -> (r: &str)
    ensures
        r@ == trimmed(s@),
;

/// `String::push`: appends one character.
pub assume_specification[ String::push ](s: &mut String, c: char)
    ensures
        final(s)@ == old(s)@.push(c),
;

/// `String::from_utf8_lossy`: the named text, which is the decoded text where
/// the bytes are well-formed UTF-8.
#[verifier::external_body]
pub(crate) fn from_utf8_lossy(bytes: &[u8]) -> (r: String)
    ensures
        r@ == lossy_text(bytes@),
        utf8::valid_utf8(bytes@) ==> r@ == utf8::decode_utf8(bytes@),
{
    String::from_utf8_lossy(bytes).into_owned()
}

/// `str::contains` with a string as the pattern: whether it stands somewhere
/// in `s`.
#[verifier::external_body]
pub(crate) fn contains(s: &str, part: &str) -> (r: bool)
    ensures
        r == occurs(part@, s@),
{
    s.contains(part)
}

/// The number in decimal.
pub(crate) fn decimal_text(n: u32) -> (r: String)
    ensures
        r@ == decimal(n as nat),
    decreases n,
{
    let digit = (48 + n % 10) as u8 as char;
    let mut out = if n < 10 {
        String::new()
    } else {
        decimal_text(n / 10)
    };
    out.push(digit);
    assert(out@ =~= decimal(n as nat));
    out
}

/// What is left after the lead starts with no white space, and is the end of
/// `s`.
proof fn without_lead_is_suffix(s: Seq<char>)
    ensures
        ({
            let t = without_lead(s);
            &&& t.len() <= s.len()
            &&& t == s.skip(s.len() - t.len())
            &&& t.len() > 0 ==> !white_space(t[0])
            &&& forall|k: int| 0 <= k < s.len() - t.len() ==> white_space(#[trigger] s[k])
        }),
    decreases s.len(),
{
    if s.len() > 0 && white_space(s[0]) {
        without_lead_is_suffix(s.drop_first());
        let t = without_lead(s);
        assert(t =~= s.skip(s.len() - t.len()));
        assert forall|k: int| 0 <= k < s.len() - t.len() implies white_space(#[trigger] s[k]) by {
            if k > 0 {
                assert(s.drop_first()[k - 1] == s[k]);
            }
        }
    } else {
        assert(s =~= s.skip(0));
    }
}

/// What is left before the tail ends with no white space, and is the start of
/// `s`.
proof fn without_tail_is_prefix(s: Seq<char>)
    ensures
        ({
            let t = without_tail(s);
            &&& t.len() <= s.len()
            &&& t == s.take(t.len() as int)
            &&& t.len() > 0 ==> !white_space(t.last())
            &&& forall|k: int| t.len() <= k < s.len() ==> white_space(#[trigger] s[k])
        }),
    decreases s.len(),
{
    if s.len() > 0 && white_space(s.last()) {
        without_tail_is_prefix(s.drop_last());
        let t = without_tail(s);
        assert(t =~= s.take(t.len() as int));
        assert forall|k: int| t.len() <= k < s.len() implies white_space(#[trigger] s[k]) by {
            if k < s.len() - 1 {
                assert(s.drop_last()[k] == s[k]);
            }
        }
    } else {
        assert(s =~= s.take(s.len() as int));
    }
}

/// A trimmed text is a stretch of the text, and has white space at neither end.
pub proof fn trimmed_is_tight(s: Seq<char>)
    ensures
        trimmed(s).len() > 0 ==> !white_space(trimmed(s)[0]) && !white_space(trimmed(s).last()),
        exists|i: int|
            0 <= i <= s.len() - trimmed(s).len() && #[trigger] s.subrange(
                i,
                i + trimmed(s).len(),
            ) == trimmed(s),
{
    let lead = without_lead(s);
    let t = trimmed(s);
    without_lead_is_suffix(s);
    without_tail_is_prefix(lead);
    let i = s.len() - lead.len();
    assert(s.subrange(i, i + t.len()) =~= t);
}

/// Trimming takes off white space only: what is left stands in the text with
/// nothing but white space before it and behind it.
pub proof fn only_white_space_is_trimmed(s: Seq<char>)
    ensures
        exists|i: int|
            #![trigger s.subrange(i, i + trimmed(s).len())]
            0 <= i <= s.len() - trimmed(s).len() && s.subrange(i, i + trimmed(s).len()) == trimmed(
                s,
            ) && (forall|k: int| 0 <= k < i ==> white_space(#[trigger] s[k])) && (forall|k: int|
                i + trimmed(s).len() <= k < s.len() ==> white_space(#[trigger] s[k])),
{
    let lead = without_lead(s);
    let t = trimmed(s);
    without_lead_is_suffix(s);
    without_tail_is_prefix(lead);
    let i = s.len() - lead.len();
    assert(s.subrange(i, i + t.len()) =~= t);
    assert forall|k: int| i + t.len() <= k < s.len() implies white_space(#[trigger] s[k]) by {
        assert(lead[k - i] == s[k]);
    }
}

/// The number that decimal digits spell.
pub open spec fn digits_value(d: Seq<char>) -> int
    decreases d.len(),
{
    if d.len() == 0 {
        0
    } else {
        digits_value(d.drop_last()) * 10 + (d.last() as int - '0' as int)
    }
}

/// A number in decimal is made of digits, spells the number, and has no zero in
/// front.
pub proof fn decimal_spells_the_number(n: nat)
    ensures
        digits_value(decimal(n)) == n,
        decimal(n).len() > 0,
        forall|i: int| 0 <= i < decimal(n).len() ==> '0' <= #[trigger] decimal(n)[i] <= '9',
        n > 0 ==> decimal(n)[0] != '0',
    decreases n,
{
    let digit = (48 + n % 10) as char;
    if n < 10 {
        assert(decimal(n).drop_last() =~= Seq::empty());
        assert(digits_value(Seq::<char>::empty()) == 0);
    } else {
        decimal_spells_the_number(n / 10);
        assert(decimal(n).drop_last() =~= decimal(n / 10));
    }
}

} // verus!
