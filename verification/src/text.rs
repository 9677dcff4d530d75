//! Text: numbers in decimal, names, and the words of a line.
use vstd::prelude::*;
use vstd::utf8::{decode_utf8, valid_utf8};

verus! {

/// Whether two strings are the same.
pub fn str_eq(a: &str, b: &str) -> (r: bool)
    ensures
        r == (a@ == b@),
{
    a.to_owned() == b.to_owned()
}

/// A decimal digit.
pub open spec fn digit_char(d: nat) -> char {
    if d == 0 {
        '0'
    } else if d == 1 {
        '1'
    } else if d == 2 {
        '2'
    } else if d == 3 {
        '3'
    } else if d == 4 {
        '4'
    } else if d == 5 {
        '5'
    } else if d == 6 {
        '6'
    } else if d == 7 {
        '7'
    } else if d == 8 {
        '8'
    } else {
        '9'
    }
}

/// A number in decimal.
pub open spec fn decimal(n: nat) -> Seq<char>
    decreases n,
{
    if n < 10 {
        seq![digit_char(n)]
    } else {
        decimal(n / 10).push(digit_char(n % 10))
    }
}

fn digit_str(d: usize) -> (s: &'static str)
    requires
        d < 10,
    ensures
        s@ =~= seq![digit_char(d as nat)],
{
    proof {
        reveal_strlit("0");
        reveal_strlit("1");
        reveal_strlit("2");
        reveal_strlit("3");
        reveal_strlit("4");
        reveal_strlit("5");
        reveal_strlit("6");
        reveal_strlit("7");
        reveal_strlit("8");
        reveal_strlit("9");
    }
    if d == 0 {
        "0"
    } else if d == 1 {
        "1"
    } else if d == 2 {
        "2"
    } else if d == 3 {
        "3"
    } else if d == 4 {
        "4"
    } else if d == 5 {
        "5"
    } else if d == 6 {
        "6"
    } else if d == 7 {
        "7"
    } else if d == 8 {
        "8"
    } else {
        "9"
    }
}

/// A number in decimal.
pub fn decimal_string(n: usize) -> (s: String)
    ensures
        s@ =~= decimal(n as nat),
    decreases n,
{
    if n < 10 {
        digit_str(n).to_owned()
    } else {
        let mut s = decimal_string(n / 10);
        s.append(digit_str(n % 10));
        s
    }
}

/// A number in decimal, with zeros before it where it has less than `width` digits.
pub open spec fn padded(n: nat, width: nat) -> Seq<char> {
    let digits = decimal(n);
    if digits.len() < width {
        Seq::new((width - digits.len()) as nat, |i: int| '0') + digits
    } else {
        digits
    }
}

/// A number in decimal, with zeros before it where it has less than `width` digits.
pub fn padded_string(n: usize, width: usize) -> (s: String)
    ensures
        s@ == padded(n as nat, width as nat),
{
    let digits = decimal_string(n);
    let count: usize = digits.as_str().unicode_len();
    let mut s = String::new();
    let mut i: usize = count;
    proof {
        reveal_strlit("0");
    }
    while i < width
        invariant
            count == digits@.len(),
            count <= i,
            count < width ==> i <= width,
            count >= width ==> i == count,
            "0"@ =~= seq!['0'],
            s@ =~= Seq::new((i - count) as nat, |k: int| '0'),
        decreases width - i,
    {
        s.append("0");
        i = i + 1;
    }
    s.append(digits.as_str());
    assert(s@ =~= padded(n as nat, width as nat));
    s
}

/// A player in a list: the index, a colon and the name.
pub open spec fn list_line(index: usize, name: Seq<char>) -> Seq<char> {
    decimal(index as nat) + ": "@ + name
}

/// A player in a list: the index, a colon and the name.
pub fn format_list_line(index: usize, name: &str) -> (s: String)
    ensures
        s@ == list_line(index, name@),
{
    let mut s = decimal_string(index);
    s.append(": ");
    s.append(name);
    s
}

/// Two strings, one after the other.
pub(crate) fn concat(a: &str, b: &str) -> (s: String)
    ensures
        s@ == a@ + b@,
{
    let mut s = a.to_owned();
    s.append(b);
    s
}

/// `c` is a decimal digit.
pub open spec fn is_digit(c: char) -> bool {
    '0' as u32 <= c as u32 <= '9' as u32
}

/// The number that a string of digits stands for.
pub open spec fn digits_value(s: Seq<char>) -> nat
    decreases s.len(),
{
    if s.len() == 0 {
        0
    } else {
        (10 * digits_value(s.drop_last()) + (s.last() as u32 - '0' as u32)) as nat
    }
}

/// The number that a text stands for: one or more digits, with an optional plus sign before them.
pub open spec fn number_of(s: Seq<char>) -> Option<nat> {
    let digits = if s.len() > 0 && s[0] == '+' {
        s.drop_first()
    } else {
        s
    };
    if digits.len() > 0 && forall|i: int| 0 <= i < digits.len() ==> is_digit(#[trigger] digits[i]) {
        Some(digits_value(digits))
    } else {
        None
    }
}

/// The number that a text stands for, if it is not too large.
pub open spec fn index_of(s: Seq<char>) -> Option<usize> {
    match number_of(s) {
        Some(n) => if n <= usize::MAX {
            Some(n as usize)
        } else {
            None
        },
        None => None,
    }
}

/// Calls `str::parse::<usize>`. It accepts digits only, with an optional plus
/// sign before them, and refuses a number that `usize` cannot hold.
#[verifier::external_body]
pub(crate) fn parse_index(s: &str) -> (r: Option<usize>)
    ensures
        r == index_of(s@),
{
    s.parse::<usize>().ok()
}

/// What `str::to_lowercase` makes of a text.
pub uninterp spec fn lowercase(s: Seq<char>) -> Seq<char>;

/// Calls `str::to_lowercase`. What Unicode says of each letter is not repeated
/// here: the result is named [`lowercase`].
#[verifier::external_body]
pub(crate) fn to_lowercase(s: &str) -> (r: String)
    ensures
        r@ == lowercase(s@),
{
    s.to_lowercase()
}

/// `part` occurs in `s`.
pub open spec fn occurs_in(part: Seq<char>, s: Seq<char>) -> bool {
    exists|i: int|
        0 <= i && i + part.len() <= s.len() && #[trigger] s.subrange(i, i + part.len()) == part
}

/// Calls `str::contains`. It finds out whether one text occurs in another.
#[verifier::external_body]
pub(crate) fn contains(s: &str, part: &str) -> (r: bool)
    ensures
        r == occurs_in(part@, s@),
{
    s.contains(part)
}

/// `c` is white space: it has the property White_Space of Unicode.
pub open spec fn is_white_space(c: char) -> bool {
    let n = c as u32;
    ||| 0x9 <= n <= 0xd
    ||| n == 0x20
    ||| n == 0x85
    ||| n == 0xa0
    ||| n == 0x1680
    ||| 0x2000 <= n <= 0x200a
    ||| n == 0x2028
    ||| n == 0x2029
    ||| n == 0x202f
    ||| n == 0x205f
    ||| n == 0x3000
}

/// `s` without the white space at both ends.
pub open spec fn trimmed(s: Seq<char>) -> Seq<char>
    decreases s.len(),
{
    if s.len() == 0 {
        s
    } else if is_white_space(s[0]) {
        trimmed(s.drop_first())
    } else if is_white_space(s.last()) {
        trimmed(s.drop_last())
    } else {
        s
    }
}

/// What is left without the white space at both ends has none there.
pub proof fn lemma_trimmed(s: Seq<char>)
    ensures
        trimmed(s).len() > 0 ==> !is_white_space(trimmed(s)[0]) && !is_white_space(
            trimmed(s).last(),
        ),
    decreases s.len(),
{
    if s.len() > 0 {
        if is_white_space(s[0]) {
            lemma_trimmed(s.drop_first());
        } else if is_white_space(s.last()) {
            lemma_trimmed(s.drop_last());
        }
    }
}

/// Calls `str::trim`. It leaves out white space, in the sense of Unicode, at
/// both ends.
#[verifier::external_body]
pub(crate) fn trim(s: &str) -> (r: &str)
    ensures
        r@ == trimmed(s@),
{
    s.trim()
}

/// Calls `String::from_utf8`. It succeeds on valid UTF-8, and only there.
#[verifier::external_body]
pub(crate) fn string_from_utf8(bytes: Vec<u8>) -> (r: Option<String>)
    ensures
        r is Some <==> valid_utf8(bytes@),
        r matches Some(s) ==> s@ == decode_utf8(bytes@),
{
    String::from_utf8(bytes).ok()
}

/// The bytes before the first zero byte.
pub open spec fn before_null(bytes: Seq<u8>) -> Seq<u8>
    decreases bytes.len(),
{
    if bytes.len() == 0 || bytes[0] == 0 {
        Seq::empty()
    } else {
        seq![bytes[0]] + before_null(bytes.drop_first())
    }
}

/// The name that a player goes by, given a name without white space around it.
pub open spec fn name_or_noname(name: Seq<char>) -> Seq<char> {
    if name.len() == 0 {
        "Noname"@
    } else {
        name
    }
}

/// The name that a client sends: the text before the first zero byte, without
/// white space around it. There is none if the bytes are not valid UTF-8.
pub open spec fn player_name_of(bytes: Seq<u8>) -> Option<Seq<char>> {
    let bytes = before_null(bytes);
    if valid_utf8(bytes) {
        Some(name_or_noname(trimmed(decode_utf8(bytes))))
    } else {
        None
    }
}

/// The name that a player goes by, given a name without white space around it.
pub fn name_or_default(name: &str) -> (r: String)
    ensures
        r@ == name_or_noname(name@),
{
    if name.is_empty() {
        "Noname".to_owned()
    } else {
        name.to_owned()
    }
}

/// The name that a client sends.
pub fn get_player_name(bytes: Vec<u8>) -> (r: Option<String>)
    ensures
        match r {
            Some(name) => player_name_of(bytes@) == Some(name@),
            None => player_name_of(bytes@) is None,
        },
{
    let ghost all = bytes@;
    let mut name: Vec<u8> = Vec::new();
    let mut i: usize = 0;
    assert(all.skip(0) =~= all);
    assert(Seq::<u8>::empty() + before_null(all) =~= before_null(all));
    while i < bytes.len() && bytes[i] != 0
        invariant
            i <= bytes@.len(),
            all == bytes@,
            before_null(all) == name@ + before_null(all.skip(i as int)),
        decreases bytes@.len() - i,
    {
        let ghost sofar = name@;
        name.push(bytes[i]);
        proof {
            let t = all.skip(i as int);
            assert(t.drop_first() =~= all.skip(i + 1));
            assert(sofar + (seq![t[0]] + before_null(t.drop_first())) =~= name@ + before_null(
                all.skip(i + 1),
            ));
        }
        i = i + 1;
    }
    assert(name@ + Seq::<u8>::empty() =~= name@);
    match string_from_utf8(name) {
        Some(s) => Some(name_or_default(trim(s.as_str()))),
        None => None,
    }
}

/// The position of the first space in `s` at or after `k`, or the length of `s`.
pub open spec fn first_space(s: Seq<char>, k: int) -> int
    decreases s.len() - k,
{
    if k >= s.len() {
        s.len() as int
    } else if s[k] == ' ' {
        k
    } else {
        first_space(s, k + 1)
    }
}

/// A chat line that is a command starts with a slash.
pub open spec fn is_command(line: Seq<char>) -> bool {
    line.len() > 0 && line[0] == '/'
}

/// The command of a line: what stands between the slash and the first space.
pub open spec fn command_of(line: Seq<char>) -> Seq<char> {
    line.subrange(1, first_space(line, 0))
}

/// The argument of a line: what stands behind the first space.
pub open spec fn argument_of(line: Seq<char>) -> Seq<char> {
    let space = first_space(line, 0);
    if space < line.len() {
        line.skip(space + 1)
    } else {
        Seq::empty()
    }
}

/// Takes a line that is a command apart.
pub fn split_command(line: &str) -> (r: Option<(String, String)>)
    ensures
        match r {
            Some((command, argument)) => {
                &&& is_command(line@)
                &&& command@ =~= command_of(line@)
                &&& argument@ =~= argument_of(line@)
            },
            None => !is_command(line@),
        },
{
    let n: usize = line.unicode_len();
    if n == 0 || line.get_char(0) != '/' {
        return None;
    }
    let mut i: usize = 0;
    while i < n && line.get_char(i) != ' '
        invariant
            i <= n,
            n == line@.len(),
            n > 0,
            line@[0] == '/',
            first_space(line@, 0) == first_space(line@, i as int),
        decreases n - i,
    {
        i = i + 1;
    }
    let command = line.substring_char(1, i).to_owned();
    let argument = if i < n {
        line.substring_char(i + 1, n).to_owned()
    } else {
        String::new()
    };
    Some((command, argument))
}

/// `c` is white space of the ASCII range.
pub open spec fn is_ascii_space(c: char) -> bool {
    c == ' ' || c == '\t' || c == '\n' || c == '\r' || c == '\x0C'
}

/// The first position at or after `k` that holds white space, if `space` is
/// set, or none otherwise. It is the length of `s` if there is no such position.
pub open spec fn scan(s: Seq<char>, k: int, space: bool) -> int
    decreases s.len() - k,
{
    if k >= s.len() {
        s.len() as int
    } else if is_ascii_space(s[k]) == space {
        k
    } else {
        scan(s, k + 1, space)
    }
}

/// The first word of `s` at or after `k`, with the position behind it. Words are
/// separated by ASCII white space. The word is empty if there is none.
pub open spec fn word_from(s: Seq<char>, k: int) -> (Seq<char>, int) {
    let start = scan(s, k, false);
    let end = scan(s, start, true);
    (s.subrange(start, end), end)
}

fn scan_str(s: &str, n: usize, from: usize, space: bool) -> (k: usize)
    requires
        n == s@.len(),
        from <= n,
    ensures
        k == scan(s@, from as int, space),
        from <= k <= n,
{
    let mut k: usize = from;
    while k < n
        invariant
            n == s@.len(),
            from <= k <= n,
            scan(s@, from as int, space) == scan(s@, k as int, space),
        decreases n - k,
    {
        let c: char = s.get_char(k);
        if (c == ' ' || c == '\t' || c == '\n' || c == '\r' || c == '\x0C') == space {
            return k;
        }
        k = k + 1;
    }
    k
}

/// The second and the third word of the answer of the master server: the
/// address and the port of the server to register with. A word that is missing
/// is empty.
pub open spec fn master_server_words(s: Seq<char>) -> (Seq<char>, Seq<char>) {
    let first = word_from(s, 0);
    let second = word_from(s, first.1);
    let third = word_from(s, second.1);
    (second.0, third.0)
}

/// Takes the answer of the master server apart.
pub fn master_server_fields(s: &str) -> (r: (String, String))
    ensures
        (r.0@, r.1@) == master_server_words(s@),
{
    let n: usize = s.unicode_len();
    let a0: usize = scan_str(s, n, 0, false);
    let a1: usize = scan_str(s, n, a0, true);
    let b0: usize = scan_str(s, n, a1, false);
    let b1: usize = scan_str(s, n, b0, true);
    let c0: usize = scan_str(s, n, b1, false);
    let c1: usize = scan_str(s, n, c0, true);
    (s.substring_char(b0, b1).to_owned(), s.substring_char(c0, c1).to_owned())
}

/// The port that a text stands for.
pub open spec fn port_of(s: Seq<char>) -> Option<u16> {
    match number_of(s) {
        Some(n) => if n <= u16::MAX {
            Some(n as u16)
        } else {
            None
        },
        None => None,
    }
}

/// The port that a text stands for.
pub fn parse_port(s: &str) -> (r: Option<u16>)
    ensures
        r == port_of(s@),
{
    match parse_index(s) {
        Some(n) => if n <= 65535 {
            Some(n as u16)
        } else {
            None
        },
        None => None,
    }
}

} // verus!
