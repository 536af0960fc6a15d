//! The space of session ids: `sess_` followed by five lower-case letters or
//! digits. Numbering those ids lets the store find a free one by counting
//! when random draws keep colliding.

use vstd::prelude::*;
use vstd::relations::injective_on;
use vstd::set_lib::{lemma_int_range, lemma_len_subset, lemma_map_size, set_int_range};

verus! {

/// How many session ids there are (36 to the fifth).
pub const ID_SPACE: u32 = 60466176;

/// The characters session ids are made of.
pub open spec fn id_char(c: char) -> bool {
    ('a' <= c && c <= 'z') || ('0' <= c && c <= '9')
}

/// Whether `s` is a session id: `sess_` and five lower-case letters or
/// digits.
pub open spec fn session_id_form(s: Seq<char>) -> bool {
    &&& s.len() == 10
    &&& s.take(5) == "sess_"@
    &&& forall|i: int| 5 <= i < 10 ==> id_char(#[trigger] s[i])
}

/// The character of digit `d` (0 to 35): the letters, then the digits.
pub open spec fn digit_of(d: int) -> char {
    if d < 26 { (97 + d) as char } else { (22 + d) as char }
}

/// The `k`-th session id, its five characters the base-36 digits of `k`
/// (most significant first).
pub open spec fn numbered_id(k: int) -> Seq<char> {
    let r0 = k % 1679616;
    let r1 = r0 % 46656;
    let r2 = r1 % 1296;
    "sess_"@ + seq![digit_of(k / 1679616), digit_of(r0 / 46656), digit_of(r1 / 1296), digit_of(r2 / 36), digit_of(r2 % 36)]
}

proof fn lemma_digit_of(d: int)
    requires
        0 <= d < 36,
    ensures
        id_char(digit_of(d)),
        digit_of(d) as int == if d < 26 { 97 + d } else { 22 + d },
{
}

/// Numbered ids are session ids, and distinct numbers give distinct ids.
pub proof fn lemma_numbered_id(a: int, b: int)
    requires
        0 <= a < ID_SPACE,
        0 <= b < ID_SPACE,
    ensures
        session_id_form(numbered_id(a)),
        numbered_id(a) == numbered_id(b) ==> a == b,
{
    reveal_strlit("sess_");
    let s = numbered_id(a);
    let ra0 = a % 1679616;
    let ra1 = ra0 % 46656;
    let ra2 = ra1 % 1296;
    lemma_digit_of(a / 1679616);
    lemma_digit_of(ra0 / 46656);
    lemma_digit_of(ra1 / 1296);
    lemma_digit_of(ra2 / 36);
    lemma_digit_of(ra2 % 36);
    assert(s.take(5) =~= "sess_"@);
    assert(s[5] == digit_of(a / 1679616));
    assert(s[6] == digit_of(ra0 / 46656));
    assert(s[7] == digit_of(ra1 / 1296));
    assert(s[8] == digit_of(ra2 / 36));
    assert(s[9] == digit_of(ra2 % 36));
    if numbered_id(a) == numbered_id(b) {
        let t = numbered_id(b);
        let rb0 = b % 1679616;
        let rb1 = rb0 % 46656;
        let rb2 = rb1 % 1296;
        lemma_digit_of(b / 1679616);
        lemma_digit_of(rb0 / 46656);
        lemma_digit_of(rb1 / 1296);
        lemma_digit_of(rb2 / 36);
        lemma_digit_of(rb2 % 36);
        assert(s[5] == t[5] && s[6] == t[6] && s[7] == t[7] && s[8] == t[8] && s[9] == t[9]);
        assert(a / 1679616 == b / 1679616);
        assert(ra0 / 46656 == rb0 / 46656);
        assert(ra1 / 1296 == rb1 / 1296);
        assert(ra2 / 36 == rb2 / 36);
        assert(ra2 % 36 == rb2 % 36);
    }
}

/// Counting: when the first `m` numbered ids all appear among `ids`, there
/// are at least `m` of them.
pub proof fn lemma_numbered_ids_fill(ids: Seq<Seq<char>>, m: int)
    requires
        0 <= m <= ID_SPACE,
        forall|j: int| 0 <= j < m ==> ids.contains(#[trigger] numbered_id(j)),
    ensures
        m <= ids.len(),
{
    let x = set_int_range(0, m);
    let f = |j: int| choose|i: int| 0 <= i < ids.len() && ids[i] == numbered_id(j);
    lemma_int_range(0, m);
    assert forall|j: int| x.contains(j) implies 0 <= #[trigger] f(j) < ids.len() && ids[f(j)] == numbered_id(j) by {
        assert(ids.contains(numbered_id(j)));
    }
    assert(injective_on(f, x)) by {
        assert forall|a: int, b: int| x.contains(a) && x.contains(b) && #[trigger] f(a) == #[trigger] f(b) implies a == b by {
            assert(ids[f(a)] == numbered_id(a));
            assert(ids[f(b)] == numbered_id(b));
            lemma_numbered_id(a, b);
        }
    }
    let y = x.map(f);
    lemma_map_size(x, y, f);
    let z = set_int_range(0, ids.len() as int);
    lemma_int_range(0, ids.len() as int);
    assert(y.subset_of(z)) by {
        assert forall|i: int| y.contains(i) implies z.contains(i) by {
            let j = choose|j: int| x.contains(j) && f(j) == i;
        }
    }
    lemma_len_subset(y, z);
}

/// The character of digit `d`.
fn digit_char_of(d: u32) -> (c: char)
    requires
        d < 36,
    ensures
        c == digit_of(d as int),
{
    if d < 26 {
        ((97 + d) as u8) as char
    } else {
        ((22 + d) as u8) as char
    }
}

/// The `k`-th session id (see `numbered_id`).
pub fn numbered_session_id(k: u32) -> (r: String)
    requires
        k < ID_SPACE,
    ensures
        r@ == numbered_id(k as int),
{
    proof {
        reveal_strlit("sess_");
    }
    let r0 = k % 1679616;
    let r1 = r0 % 46656;
    let r2 = r1 % 1296;
    let mut s = String::new();
    crate::text::push_str(&mut s, "sess_");
    crate::text::string_push(&mut s, digit_char_of(k / 1679616));
    crate::text::string_push(&mut s, digit_char_of(r0 / 46656));
    crate::text::string_push(&mut s, digit_char_of(r1 / 1296));
    crate::text::string_push(&mut s, digit_char_of(r2 / 36));
    crate::text::string_push(&mut s, digit_char_of(r2 % 36));
    assert(s@ =~= numbered_id(k as int));
    s
}

} // verus!
