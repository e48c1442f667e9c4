use crate::chance::{is_alphanumeric_char, random_alphanumeric};
use std::collections::HashMap;
use vstd::prelude::*;
use vstd::string::StrSliceExecFns;
use vstd::utf8::char_u32_cast;

verus! {

broadcast use vstd::std_specs::hash::group_hash_axioms;

/// Characters in a room code.
pub const ROOM_CODE_LEN: usize = 7;

/// Random codes drawn before `next_room_name` gives up.
pub const MAX_CODE_ATTEMPTS: usize = 16;

/// Value of an alphanumeric character as a base-62 digit: `A`-`Z`, then
/// `a`-`z`, then `0`-`9`.
pub open spec fn digit_of(c: char) -> int {
    let v = c as u32;
    if 65 <= v <= 90 {
        v - 65
    } else if 97 <= v <= 122 {
        v - 97 + 26
    } else {
        v - 48 + 52
    }
}

/// `62^n`.
pub open spec fn pow62(n: nat) -> nat
    decreases n,
{
    if n == 0 {
        1
    } else {
        62 * pow62((n - 1) as nat)
    }
}

/// The number that the characters of `s` spell in base 62, most
/// significant first.
pub open spec fn code_value(s: Seq<char>) -> nat
    decreases s.len(),
{
    if s.len() == 0 {
        0
    } else {
        (code_value(s.drop_last()) * 62 + digit_of(s.last())) as nat
    }
}

/// Whether `s` is a room code: `ROOM_CODE_LEN` alphanumeric characters.
pub open spec fn is_room_code(s: Seq<char>) -> bool {
    &&& s.len() == ROOM_CODE_LEN
    &&& forall|i: int| 0 <= i < s.len() ==> is_alphanumeric_char(#[trigger] s[i])
}

/// The key of a room code in the registry, or `None` for a text that is no room code.
pub open spec fn room_key(s: Seq<char>) -> Option<u64> {
    if is_room_code(s) {
        Some(code_value(s) as u64)
    } else {
        None
    }
}

/// Distinct room codes have distinct keys.
pub proof fn lemma_room_key_injective(a: Seq<char>, b: Seq<char>)
    requires
        is_room_code(a),
        is_room_code(b),
        code_value(a) == code_value(b),
    ensures
        a == b,
{
    lemma_code_value_injective(a, b);
}

proof fn lemma_code_value_injective(a: Seq<char>, b: Seq<char>)
    requires
        a.len() == b.len(),
        forall|i: int| 0 <= i < a.len() ==> is_alphanumeric_char(#[trigger] a[i]),
        forall|i: int| 0 <= i < b.len() ==> is_alphanumeric_char(#[trigger] b[i]),
        code_value(a) == code_value(b),
    ensures
        a == b,
    decreases a.len(),
{
    if a.len() > 0 {
        let (x, y) = (code_value(a.drop_last()), code_value(b.drop_last()));
        let (p, q) = (digit_of(a.last()), digit_of(b.last()));
        assert(is_alphanumeric_char(a[a.len() - 1]));
        assert(is_alphanumeric_char(b[b.len() - 1]));
        assert(0 <= p < 62 && 0 <= q < 62);
        assert(x == y && p == q) by (nonlinear_arith)
            requires
                x * 62 + p == y * 62 + q,
                0 <= p < 62,
                0 <= q < 62,
                x >= 0,
                y >= 0,
        {
        }
        lemma_code_value_injective(a.drop_last(), b.drop_last());
        let u = a.last() as u32;
        assert(u == b.last() as u32);
        char_u32_cast(a.last(), u);
        char_u32_cast(b.last(), u);
        assert(a =~= a.drop_last().push(a.last()));
        assert(b =~= b.drop_last().push(b.last()));
    }
}

proof fn lemma_pow62_grows(m: nat, n: nat)
    requires
        m <= n,
    ensures
        pow62(m) <= pow62(n),
    decreases n,
{
    if m < n {
        lemma_pow62_grows(m, (n - 1) as nat);
    }
}

/// The base-62 digit of `c`, or `None` when it is not alphanumeric.
fn code_digit(c: char) -> (r: Option<u64>)
    ensures
        r == if is_alphanumeric_char(c) {
            Some(digit_of(c) as u64)
        } else {
            None::<u64>
        },
{
    let v = c as u32;
    if 65 <= v && v <= 90 {
        Some((v - 65) as u64)
    } else if 97 <= v && v <= 122 {
        Some((v - 97 + 26) as u64)
    } else if 48 <= v && v <= 57 {
        Some((v - 48 + 52) as u64)
    } else {
        None
    }
}

/// The registry key of the room code `s`, or `None` when `s` is no room code.
pub fn parse_room_code(s: &str) -> (r: Option<u64>)
    ensures
        r == room_key(s@),
{
    if s.unicode_len() != ROOM_CODE_LEN {
        return None;
    }
    proof {
        reveal_with_fuel(pow62, 8);
        lemma_pow62_grows(6, 7);
    }
    let mut acc: u64 = 0;
    let mut i: usize = 0;
    while i < ROOM_CODE_LEN
        invariant
            s@.len() == ROOM_CODE_LEN,
            i <= ROOM_CODE_LEN,
            forall|j: int| 0 <= j < i ==> is_alphanumeric_char(#[trigger] s@[j]),
            acc == code_value(s@.take(i as int)),
            acc < pow62(i as nat),
            pow62(7) == 3521614606208,
        decreases ROOM_CODE_LEN - i,
    {
        let c = s.get_char(i);
        let d = match code_digit(c) {
            Some(d) => d,
            None => {
                return None;
            },
        };
        proof {
            lemma_pow62_grows((i + 1) as nat, 7);
            assert(s@.take(i + 1).drop_last() =~= s@.take(i as int));
            let p = pow62(i as nat);
            assert(acc * 62 + d < 62 * p) by (nonlinear_arith)
                requires
                    acc < p,
                    d < 62,
            {
            }
        }
        acc = acc * 62 + d;
        i = i + 1;
    }
    assert(s@.take(7) =~= s@);
    Some(acc)
}

/// Process-wide table of rooms, keyed by room code.
pub struct RoomRegistry<H> {
    pub rooms: HashMap<u64, H>,
}

impl<H> RoomRegistry<H> {
    /// The rooms, by key.
    pub open spec fn view(&self) -> Map<u64, H> {
        self.rooms@
    }

    /// An empty registry.
    pub fn new() -> (r: RoomRegistry<H>)
        ensures
            r.view() == Map::<u64, H>::empty(),
    {
        RoomRegistry { rooms: HashMap::new() }
    }

    /// Number of rooms.
    pub fn len(&self) -> (r: usize)
        ensures
            r == self.view().len(),
    {
        self.rooms.len()
    }

    /// The room with code `code`, if there is one.
    pub fn get(&self, code: &str) -> (r: Option<&H>)
        ensures
            r matches Some(h) ==> room_key(code@) matches Some(k) && self.view().contains_key(k) && *h
                == self.view()[k],
            r is None ==> (room_key(code@) matches Some(k) ==> !self.view().contains_key(k)),
    {
        match parse_room_code(code) {
            Some(k) => self.rooms.get(&k),
            None => None,
        }
    }

    /// Installs `handle` under the room code `code` when `code` is a room
    /// code not in use, returning its key; otherwise hands `handle` back.
    pub fn claim(&mut self, code: &str, handle: H) -> (r: Result<u64, H>)
        ensures
            r is Ok <==> (room_key(code@) matches Some(k) && !old(self).view().contains_key(k)),
            r matches Ok(k) ==> room_key(code@) == Some(k) && final(self).view() == old(self).view().insert(k, handle),
            r matches Err(h) ==> h == handle && final(self).view() == old(self).view(),
    {
        match parse_room_code(code) {
            Some(k) => {
                if self.rooms.contains_key(&k) {
                    Err(handle)
                } else {
                    self.rooms.insert(k, handle);
                    Ok(k)
                }
            },
            None => Err(handle),
        }
    }

    /// Removes the room with code `code` and returns it.
    pub fn remove(&mut self, code: &str) -> (r: Option<H>)
        ensures
            room_key(code@) matches Some(k) ==> final(self).view() == old(self).view().remove(k) && (r matches Some(
                h,
            ) ==> old(self).view().contains_key(k) && h == old(self).view()[k]) && (r is None
                ==> !old(self).view().contains_key(k)),
            room_key(code@) is None ==> final(self).view() == old(self).view() && r is None,
    {
        match parse_room_code(code) {
            Some(k) => self.rooms.remove(&k),
            None => None,
        }
    }
}

/// Draws random room codes until one is free, installs `handle` under it
/// and returns the code; gives up, leaving the registry as it was, after
/// `MAX_CODE_ATTEMPTS` codes in use.
pub fn next_room_name<H>(rooms: &mut RoomRegistry<H>, handle: H) -> (r: Option<String>)
    ensures
        r matches Some(name) ==> is_room_code(name@) && !old(rooms).view().contains_key(code_value(name@) as u64)
            && final(rooms).view() == old(rooms).view().insert(code_value(name@) as u64, handle),
        r is None ==> final(rooms).view() == old(rooms).view(),
        old(rooms).view() == Map::<u64, H>::empty() ==> r is Some,
{
    let mut attempt: usize = 0;
    let mut pending = handle;
    while attempt < MAX_CODE_ATTEMPTS
        invariant
            rooms.view() == old(rooms).view(),
            pending == handle,
            old(rooms).view() == Map::<u64, H>::empty() ==> attempt == 0,
        decreases MAX_CODE_ATTEMPTS - attempt,
    {
        let candidate = random_alphanumeric(ROOM_CODE_LEN);
        assert(is_room_code(candidate@));
        match rooms.claim(candidate.as_str(), pending) {
            Ok(_) => {
                return Some(candidate);
            },
            Err(h) => {
                pending = h;
            },
        }
        attempt = attempt + 1;
    }
    None
}

} // verus!
