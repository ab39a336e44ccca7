//! Text the whiteboard builds: room codes, default names, peer labels,
//! room addresses, and the trimming of typed names.
use vstd::prelude::*;

verus! {

/// Appends `c` to `s` (`String::push`).
#[verifier::external_body]
pub(crate) fn push_char(s: &mut String, c: char)
    ensures
        final(s)@ == old(s)@.push(c),
{
    s.push(c)
}

/// Removes and returns the last character of `s`, if any (`String::pop`).
#[verifier::external_body]
pub(crate) fn pop_char(s: &mut String) -> (res: Option<char>)
    ensures
        old(s)@.len() == 0 ==> res is None && final(s)@ == old(s)@,
        old(s)@.len() > 0 ==> res == Some(old(s)@.last()) && final(s)@ == old(s)@.drop_last(),
{
    s.pop()
}

/// Draws a number in `0..high` from macroquad's pseudo-random generator
/// (`macroquad::rand::gen_range(0, high)`, which scales a 32-bit draw into
/// the range and truncates). Which number comes out is not stated.
#[verifier::external_body]
fn random_below(high: u32) -> (r: u32)
    requires
        high > 0,
    ensures
        r < high,
{
    macroquad::rand::gen_range(0u32, high)
}

/// The digit `d` (below 16) as an upper-case character.
pub open spec fn digit_char(d: int) -> char {
    if d < 10 {
        (48 + d) as char
    } else {
        (55 + d) as char
    }
}

/// The last `width` digits of `n` in base `base`, most significant first,
/// zero-padded.
pub open spec fn padded_digits(n: nat, base: nat, width: nat) -> Seq<char>
    decreases width,
{
    if width == 0 || base == 0 {
        seq![]
    } else {
        padded_digits(n / base, base, (width - 1) as nat).push(digit_char((n % base) as int))
    }
}

fn digit_char_of(d: u32) -> (c: char)
    requires
        d < 16,
    ensures
        c == digit_char(d as int),
{
    if d < 10 {
        (48u8 + d as u8) as char
    } else {
        (55u8 + d as u8) as char
    }
}

fn push_padded_digits(s: &mut String, n: u32, base: u32, width: u32)
    requires
        2 <= base <= 16,
    ensures
        final(s)@ == old(s)@ + padded_digits(n as nat, base as nat, width as nat),
    decreases width,
{
    if width == 0 {
        assert(old(s)@ + padded_digits(n as nat, base as nat, 0) =~= old(s)@);
        return;
    }
    push_padded_digits(s, n / base, base, width - 1);
    push_char(s, digit_char_of(n % base));
    assert(final(s)@ =~= old(s)@ + padded_digits(n as nat, base as nat, width as nat));
}

/// A six-digit room code: `n` in decimal, zero-padded.
pub fn room_code(n: u32) -> (code: String)
    requires
        n < 1_000_000,
    ensures
        code@ == padded_digits(n as nat, 10, 6),
{
    let mut code = String::new();
    push_padded_digits(&mut code, n, 10, 6);
    code
}

/// A random six-digit room code, used as the room's id at the signalling
/// server.
pub fn generate_room_code() -> (code: String)
    ensures
        exists|n: nat| n < 1_000_000 && code@ == padded_digits(n, 10, 6),
{
    let n = random_below(1_000_000);
    room_code(n)
}

/// The name a player starts with: "Player" and four digits of `n`.
pub fn player_name(n: u32) -> (name: String)
    requires
        n < 10_000,
    ensures
        name@ == "Player"@ + padded_digits(n as nat, 10, 4),
{
    let mut name = String::from_str("Player");
    push_padded_digits(&mut name, n, 10, 4);
    name
}

/// A random starting name for the local player.
pub fn default_player_name() -> (name: String)
    ensures
        exists|n: nat| n < 10_000 && name@ == "Player"@ + padded_digits(n, 10, 4),
{
    let n = random_below(10_000);
    player_name(n)
}

/// The placeholder name for a peer whose id hashes to `hash`: "Guest-" and
/// the hash's low 16 bits as four upper-case hexadecimal digits.
pub fn guest_label(hash: u64) -> (label: String)
    ensures
        label@ == "Guest-"@ + padded_digits((hash % 0x10000) as nat, 16, 4),
{
    let mut label = String::from_str("Guest-");
    let low = (hash & 0xFFFF) as u32;
    assert(hash & 0xFFFF == hash % 0x10000) by (bit_vector);
    push_padded_digits(&mut label, low, 16, 4);
    label
}

/// `s` without the slashes it ends with.
pub open spec fn without_trailing_slashes(s: Seq<char>) -> Seq<char>
    decreases s.len(),
{
    if s.len() > 0 && s.last() == '/' {
        without_trailing_slashes(s.drop_last())
    } else {
        s
    }
}

/// The address of a room at the signalling server: the server's address
/// without trailing slashes, a slash, and the room code.
pub fn room_url(signaling_base: &str, code: &str) -> (url: String)
    ensures
        url@ == without_trailing_slashes(signaling_base@) + "/"@ + code@,
{
    let mut end = signaling_base.unicode_len();
    assert(signaling_base@.take(end as int) =~= signaling_base@);
    while end > 0 && signaling_base.get_char(end - 1) == '/'
        invariant
            end <= signaling_base@.len(),
            without_trailing_slashes(signaling_base@.take(end as int)) == without_trailing_slashes(
                signaling_base@,
            ),
        decreases end,
    {
        assert(signaling_base@.take(end as int).drop_last() =~= signaling_base@.take(end - 1));
        end -= 1;
    }
    proof {
        let t = signaling_base@.take(end as int);
        if end > 0 {
            assert(t.last() == signaling_base@[end - 1]);
        }
        assert(without_trailing_slashes(t) == t);
    }
    let mut url = String::from_str(signaling_base.substring_char(0, end));
    url.append("/");
    url.append(code);
    proof {
        assert(signaling_base@.subrange(0, end as int) =~= signaling_base@.take(end as int));
    }
    url
}

/// Whether `c` is white space in the sense of Unicode's `White_Space`
/// property (the characters `char::is_whitespace` accepts).
pub open spec fn is_white_space(c: char) -> bool {
    let u = c as u32;
    ||| 0x9 <= u <= 0xD
    ||| u == 0x20
    ||| u == 0x85
    ||| u == 0xA0
    ||| u == 0x1680
    ||| 0x2000 <= u <= 0x200A
    ||| u == 0x2028
    ||| u == 0x2029
    ||| u == 0x202F
    ||| u == 0x205F
    ||| u == 0x3000
}

fn white_space(c: char) -> (res: bool)
    ensures
        res == is_white_space(c),
{
    let u = c as u32;
    (0x9 <= u && u <= 0xD) || u == 0x20 || u == 0x85 || u == 0xA0 || u == 0x1680 || (0x2000 <= u && u
        <= 0x200A) || u == 0x2028 || u == 0x2029 || u == 0x202F || u == 0x205F || u == 0x3000
}

/// Whether `s[a..b]` is `s` without its leading and trailing white space.
pub open spec fn trims_to(s: Seq<char>, a: int, b: int) -> bool {
    &&& 0 <= a <= b <= s.len()
    &&& forall|i: int| 0 <= i < a ==> is_white_space(#[trigger] s[i])
    &&& forall|i: int| b <= i < s.len() ==> is_white_space(#[trigger] s[i])
    &&& a < b ==> !is_white_space(s[a]) && !is_white_space(s[b - 1])
}

/// `s` without its leading and trailing white space.
pub open spec fn trimmed(s: Seq<char>) -> Seq<char> {
    let (a, b) = choose|a: int, b: int| trims_to(s, a, b);
    s.subrange(a, b)
}

/// Any two ways of trimming `s` give the same text.
proof fn lemma_trims_to_unique(s: Seq<char>, a: int, b: int, c: int, d: int)
    requires
        trims_to(s, a, b),
        trims_to(s, c, d),
    ensures
        s.subrange(a, b) == s.subrange(c, d),
{
    if a < b && c < d {
        if a < c {
            assert(is_white_space(s[a]));
        }
        if c < a {
            assert(is_white_space(s[c]));
        }
        if b < d {
            assert(is_white_space(s[d - 1]));
        }
        if d < b {
            assert(is_white_space(s[b - 1]));
        }
    } else if a < b {
        assert(c >= d);
        if a < c {
            assert(is_white_space(s[a]));
        } else {
            assert(is_white_space(s[a]));
        }
    } else if c < d {
        if c < a {
            assert(is_white_space(s[c]));
        } else {
            assert(is_white_space(s[c]));
        }
    } else {
        assert(s.subrange(a, b) =~= s.subrange(c, d));
    }
}

/// `s` without its leading and trailing white space (`str::trim`).
pub fn trim_white_space(s: &str) -> (res: String)
    ensures
        res@ == trimmed(s@),
{
    let n = s.unicode_len();
    let mut a: usize = 0;
    while a < n && white_space(s.get_char(a))
        invariant
            n == s@.len(),
            a <= n,
            forall|i: int| 0 <= i < a ==> is_white_space(#[trigger] s@[i]),
        decreases n - a,
    {
        a += 1;
    }
    let mut b: usize = n;
    while b > a && white_space(s.get_char(b - 1))
        invariant
            n == s@.len(),
            a <= b <= n,
            forall|i: int| b <= i < n ==> is_white_space(#[trigger] s@[i]),
        decreases b,
    {
        b -= 1;
    }
    proof {
        assert(trims_to(s@, a as int, b as int));
        let (c, d) = choose|c: int, d: int| trims_to(s@, c, d);
        lemma_trims_to_unique(s@, a as int, b as int, c, d);
    }
    String::from_str(s.substring_char(a, b))
}

/// Every text can be trimmed, and its trimmed form is either empty or
/// starts and ends with a character that is not white space.
pub proof fn lemma_trimmed_has_no_outer_white_space(s: Seq<char>)
    ensures
        exists|a: int, b: int| trims_to(s, a, b),
        trimmed(s).len() > 0 ==> !is_white_space(trimmed(s)[0]) && !is_white_space(trimmed(s).last()),
        trimmed(s).len() <= s.len(),
{
    lemma_trims_to_exists(s);
    let (a, b) = choose|a: int, b: int| trims_to(s, a, b);
    assert(trimmed(s) == s.subrange(a, b));
    if a < b {
        assert(trimmed(s)[0] == s[a]);
        assert(trimmed(s).last() == s[b - 1]);
    }
}

proof fn lemma_trims_to_exists(s: Seq<char>)
    ensures
        exists|a: int, b: int| trims_to(s, a, b),
    decreases s.len(),
{
    if s.len() == 0 {
        assert(trims_to(s, 0, 0));
    } else {
        let d = s.drop_last();
        let n = s.len() - 1;
        lemma_trims_to_exists(d);
        let (a, b) = choose|a: int, b: int| trims_to(d, a, b);
        assert forall|i: int| 0 <= i < n implies s[i] == d[i] by {}
        if is_white_space(s.last()) {
            assert(trims_to(s, a, b));
        } else if a < b {
            assert(trims_to(s, a, n + 1));
        } else {
            assert(trims_to(s, n, n + 1));
        }
    }
}

} // verus!
