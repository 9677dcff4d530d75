//! What holds of numbers and words as text.
use crate::registration::{
    registration_step, HQMRegistration, HQMRegistrationAction, HQMRegistrationEvent,
};
use crate::text::{
    decimal, digit_char, digits_value, index_of, is_ascii_space, is_digit, master_server_words,
    padded, port_of, scan, word_from,
};
use vstd::prelude::*;

verus! {

/// A digit is written as the character for it.
pub proof fn law_digit_is_written(d: nat)
    requires
        d < 10,
    ensures
        digit_char(d) as u32 == 0x30 + d,
{
}

/// A number is written in decimal: its digits stand for the number, and there is
/// no zero before them.
pub proof fn law_number_is_written(n: nat)
    ensures
        decimal(n).len() > 0,
        digits_value(decimal(n)) == n,
        forall|i: int| 0 <= i < decimal(n).len() ==> is_digit(#[trigger] decimal(n)[i]),
        n > 0 ==> decimal(n)[0] != '0',
    decreases n,
{
    let s = decimal(n);
    if n < 10 {
        assert(s.drop_last() =~= Seq::<char>::empty());
        assert(digits_value(s.drop_last()) == 0);
    } else {
        law_number_is_written(n / 10);
        assert(s.drop_last() =~= decimal(n / 10));
        assert(s[0] == decimal(n / 10)[0]);
        assert forall|i: int| 0 <= i < s.len() implies is_digit(#[trigger] s[i]) by {
            if i < s.len() - 1 {
                assert(s[i] == decimal(n / 10)[i]);
            }
        }
    }
}

/// A number that is written in decimal is read as the same number, if it can be
/// held. A port is a number below 65536.
pub proof fn law_number_is_read_back(n: nat)
    ensures
        index_of(decimal(n)) == (if n <= usize::MAX {
            Some(n as usize)
        } else {
            None
        }),
        port_of(decimal(n)) == (if n <= 65535 {
            Some(n as u16)
        } else {
            None
        }),
{
    law_number_is_written(n);
    let s = decimal(n);
    assert(is_digit(s[0]));
    assert(s[0] != '+');
}

/// A port is a number that sixteen bits can hold.
pub proof fn law_port_is_a_number(s: Seq<char>)
    ensures
        port_of(s) is Some <==> index_of(s) is Some && index_of(s)->0 <= 65535,
        port_of(s) is Some ==> port_of(s)->0 == index_of(s)->0,
{
}

proof fn lemma_zeros_value(k: nat, s: Seq<char>)
    ensures
        digits_value(Seq::new(k, |i: int| '0') + s) == digits_value(s),
    decreases s.len(), k,
{
    let zeros = Seq::new(k, |i: int| '0');
    if s.len() > 0 {
        assert((zeros + s).drop_last() =~= zeros + s.drop_last());
        lemma_zeros_value(k, s.drop_last());
    } else if k > 0 {
        let fewer = Seq::new((k - 1) as nat, |i: int| '0');
        assert((zeros + s).drop_last() =~= fewer + s);
        lemma_zeros_value((k - 1) as nat, s);
    } else {
        assert(zeros + s =~= s);
    }
}

/// A number is filled up with zeros to a width, and stays the same number. If it
/// is wide enough nothing is put before it.
pub proof fn law_number_is_padded(n: nat, width: nat)
    ensures
        padded(n, width).len() == (if decimal(n).len() < width {
            width
        } else {
            decimal(n).len()
        }),
        digits_value(padded(n, width)) == n,
        decimal(n).len() >= width ==> padded(n, width) == decimal(n),
        forall|i: int|
            0 <= i < padded(n, width).len() ==> is_digit(#[trigger] padded(n, width)[i]),
{
    law_number_is_written(n);
    let digits = decimal(n);
    if digits.len() < width {
        let k = width - digits.len();
        lemma_zeros_value(k as nat, digits);
        assert forall|i: int| 0 <= i < padded(n, width).len() implies is_digit(
            #[trigger] padded(n, width)[i],
        ) by {
            if i >= k {
                assert(padded(n, width)[i] == digits[i - k]);
            }
        }
    }
}

/// White space between words: a space, a tab, a new line, a form feed or a return.
pub open spec fn is_blank(c: char) -> bool {
    let n = c as u32;
    n == 0x20 || n == 0x9 || n == 0xa || n == 0xc || n == 0xd
}

/// There is nothing but white space.
pub open spec fn is_gap(s: Seq<char>) -> bool {
    forall|i: int| 0 <= i < s.len() ==> is_blank(#[trigger] s[i])
}

/// A word: there is something, and no white space in it.
pub open spec fn is_word(s: Seq<char>) -> bool {
    s.len() > 0 && forall|i: int| 0 <= i < s.len() ==> !is_blank(#[trigger] s[i])
}

proof fn lemma_space(c: char)
    ensures
        is_ascii_space(c) <==> is_blank(c),
{
}

proof fn lemma_scan(s: Seq<char>, k: int, n: int, space: bool)
    requires
        0 <= k <= n <= s.len(),
        forall|j: int| k <= j < n ==> is_ascii_space(#[trigger] s[j]) != space,
        n == s.len() || is_ascii_space(s[n]) == space,
    ensures
        scan(s, k, space) == n,
    decreases n - k,
{
    if k < n {
        assert(is_ascii_space(s[k]) != space);
        lemma_scan(s, k + 1, n, space);
    }
}

/// The word that follows a gap, where the text ends or white space follows, is
/// found.
proof fn lemma_word(s: Seq<char>, k: int, a: int, b: int)
    requires
        0 <= k <= a < b <= s.len(),
        is_gap(s.subrange(k, a)),
        is_word(s.subrange(a, b)),
        b == s.len() || is_blank(s[b]),
    ensures
        word_from(s, k) == (s.subrange(a, b), b),
{
    let gap = s.subrange(k, a);
    let word = s.subrange(a, b);
    assert forall|j: int| k <= j < a implies is_ascii_space(#[trigger] s[j]) by {
        assert(gap[j - k] == s[j]);
        lemma_space(s[j]);
    }
    assert forall|j: int| a <= j < b implies !is_ascii_space(#[trigger] s[j]) by {
        assert(word[j - a] == s[j]);
        lemma_space(s[j]);
    }
    if b < s.len() {
        lemma_space(s[b]);
    }
    lemma_scan(s, k, a, false);
    lemma_scan(s, a, b, true);
}

/// Of the answer of the master server the second and the third word are taken, as
/// they stand there, however much white space there is around them.
pub proof fn law_second_and_third_word(
    before: Seq<char>,
    first: Seq<char>,
    gap1: Seq<char>,
    second: Seq<char>,
    gap2: Seq<char>,
    third: Seq<char>,
    rest: Seq<char>,
)
    requires
        is_gap(before),
        is_word(first),
        is_gap(gap1),
        gap1.len() > 0,
        is_word(second),
        is_gap(gap2),
        gap2.len() > 0,
        is_word(third),
        rest.len() > 0 ==> is_blank(rest[0]),
    ensures
        master_server_words(before + first + gap1 + second + gap2 + third + rest) == (
            second,
            third,
        ),
{
    let s = before + first + gap1 + second + gap2 + third + rest;
    let a0 = before.len() as int;
    let a1 = a0 + first.len();
    let b0 = a1 + gap1.len();
    let b1 = b0 + second.len();
    let c0 = b1 + gap2.len();
    let c1 = c0 + third.len();
    assert(s.subrange(0, a0) =~= before);
    assert(s.subrange(a0, a1) =~= first);
    assert(s.subrange(a1, b0) =~= gap1);
    assert(s.subrange(b0, b1) =~= second);
    assert(s.subrange(b1, c0) =~= gap2);
    assert(s.subrange(c0, c1) =~= third);
    assert(s[a1] == gap1[0]);
    assert(s[b1] == gap2[0]);
    if rest.len() > 0 {
        assert(s[c1] == rest[0]);
    }
    lemma_word(s, 0, a0, a1);
    lemma_word(s, a1, b0, b1);
    lemma_word(s, b1, c0, c1);
}

/// Where there are fewer than three words, those that are missing are empty.
pub proof fn law_missing_words_are_empty(
    before: Seq<char>,
    first: Seq<char>,
    gap1: Seq<char>,
    second: Seq<char>,
    rest: Seq<char>,
)
    requires
        is_gap(before),
        is_word(first),
        is_gap(gap1),
        gap1.len() > 0,
        is_word(second),
        is_gap(rest),
    ensures
        master_server_words(before) == (Seq::<char>::empty(), Seq::<char>::empty()),
        master_server_words(before + first + rest) == (
            Seq::<char>::empty(),
            Seq::<char>::empty(),
        ),
        master_server_words(before + first + gap1 + second + rest) == (
            second,
            Seq::<char>::empty(),
        ),
{
    assert(before.skip(0) =~= before);
    lemma_no_word(before, 0);
    lemma_no_word(before, before.len() as int);
    let a0 = before.len() as int;
    let a1 = a0 + first.len();
    let s = before + first + rest;
    assert(s.subrange(0, a0) =~= before);
    assert(s.subrange(a0, a1) =~= first);
    assert(s.skip(a1) =~= rest);
    if rest.len() > 0 {
        assert(s[a1] == rest[0]);
    }
    lemma_word(s, 0, a0, a1);
    lemma_no_word(s, a1);
    assert(s.skip(s.len() as int) =~= Seq::<char>::empty());
    lemma_no_word(s, s.len() as int);
    let t = before + first + gap1 + second + rest;
    let b0 = a1 + gap1.len();
    let b1 = b0 + second.len();
    assert(t.subrange(0, a0) =~= before);
    assert(t.subrange(a0, a1) =~= first);
    assert(t.subrange(a1, b0) =~= gap1);
    assert(t.subrange(b0, b1) =~= second);
    assert(t.skip(b1) =~= rest);
    assert(t[a1] == gap1[0]);
    if rest.len() > 0 {
        assert(t[b1] == rest[0]);
    }
    lemma_word(t, 0, a0, a1);
    lemma_word(t, a1, b0, b1);
    lemma_no_word(t, b1);
}

proof fn lemma_no_word(s: Seq<char>, k: int)
    requires
        0 <= k <= s.len(),
        is_gap(s.skip(k)),
    ensures
        word_from(s, k) == (Seq::<char>::empty(), s.len() as int),
{
    let gap = s.skip(k);
    assert forall|j: int| k <= j < s.len() implies is_ascii_space(#[trigger] s[j]) by {
        assert(gap[j - k] == s[j]);
        lemma_space(s[j]);
    }
    lemma_scan(s, k, s.len() as int, false);
    assert(s.subrange(s.len() as int, s.len() as int) =~= Seq::<char>::empty());
}

/// When the master server is found the server registers; after each registration
/// it waits for ten seconds and registers again until it has done so often enough,
/// and then asks anew. If the master server is not found it waits for fifteen
/// seconds before it asks again, and if a registration fails it asks at once.
pub proof fn law_registration_goes_on(left: u32)
    ensures
        registration_step(HQMRegistration::Asking, HQMRegistrationEvent::Found) == (
            HQMRegistration::Sending { left: 60 },
            HQMRegistrationAction::Send,
        ),
        registration_step(HQMRegistration::Asking, HQMRegistrationEvent::NotFound).1
            == HQMRegistrationAction::Wait(15),
        registration_step(
            registration_step(HQMRegistration::Asking, HQMRegistrationEvent::NotFound).0,
            HQMRegistrationEvent::Waited,
        ) == (HQMRegistration::Asking, HQMRegistrationAction::Ask),
        registration_step(HQMRegistration::Sending { left }, HQMRegistrationEvent::SendFailed)
            == (HQMRegistration::Asking, HQMRegistrationAction::Ask),
        registration_step(HQMRegistration::Sending { left }, HQMRegistrationEvent::Sent).1
            == HQMRegistrationAction::Wait(10),
        registration_step(
            registration_step(HQMRegistration::Sending { left }, HQMRegistrationEvent::Sent).0,
            HQMRegistrationEvent::Waited,
        ) == (if left > 1 {
            (HQMRegistration::Sending { left: (left - 1) as u32 }, HQMRegistrationAction::Send)
        } else {
            (HQMRegistration::Asking, HQMRegistrationAction::Ask)
        }),
{
}

} // verus!
