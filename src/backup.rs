//! Names of the files that hold chunks which could not be written to a
//! replica: `<replica id>_<kind>_<nanoseconds>.bin`, where a replica id is
//! made of lower-case letters, digits and dashes.
use vstd::prelude::*;

verus! {

/// The decimal digit for a value below ten.
pub open spec fn digit_char(d: nat) -> char {
    seq!['0', '1', '2', '3', '4', '5', '6', '7', '8', '9'][d as int]
}

/// The decimal rendering of a number, without sign or leading zeros.
pub open spec fn decimal(n: nat) -> Seq<char>
    decreases n,
{
    if n < 10 {
        seq![digit_char(n)]
    } else {
        decimal(n / 10) + seq![digit_char(n % 10)]
    }
}

/// Relies on `u128`'s `Display`, through `to_string`: the decimal digits
/// of the number, with no sign or padding.
#[verifier::external_body]
fn decimal_string(n: u128) -> (r: String)
    ensures
        r@ == decimal(n as nat),
{
    n.to_string()
}

pub open spec fn is_id_char(c: char) -> bool {
    ('a' <= c && c <= 'z') || ('0' <= c && c <= '9') || c == '-'
}

pub open spec fn is_digit(c: char) -> bool {
    '0' <= c && c <= '9'
}

/// A replica id as it appears in a file name.
pub open spec fn valid_id(s: Seq<char>) -> bool {
    s.len() > 0 && forall|i: int| 0 <= i < s.len() ==> is_id_char(#[trigger] s[i])
}

pub open spec fn all_digits(s: Seq<char>) -> bool {
    s.len() > 0 && forall|i: int| 0 <= i < s.len() ==> is_digit(#[trigger] s[i])
}

pub open spec fn chunk_tag() -> Seq<char> {
    seq!['_', 'c', 'h', 'u', 'n', 'k', '_']
}

pub open spec fn bin_suffix() -> Seq<char> {
    seq!['.', 'b', 'i', 'n']
}

/// The name of the file that holds a chunk spilled for a replica.
pub open spec fn chunk_file_name(id: Seq<char>, digits: Seq<char>) -> Seq<char> {
    id + chunk_tag() + digits + bin_suffix()
}

proof fn lemma_decimal_is_digits(n: nat)
    ensures
        all_digits(decimal(n)),
    decreases n,
{
    if n >= 10 {
        lemma_decimal_is_digits(n / 10);
        let d = decimal(n);
        assert forall|i: int| 0 <= i < d.len() implies is_digit(#[trigger] d[i]) by {
            if i < d.len() - 1 {
                assert(d[i] == decimal(n / 10)[i]);
            }
        }
    }
}

/// The name under which a spilled item of the given kind is saved for a
/// replica, at time `now` in nanoseconds.
pub fn generate_backup_file_name(canister_id: String, data_type: &str, now: u128) -> (r: String)
    ensures
        r@ == canister_id@ + seq!['_'] + data_type@ + seq!['_'] + decimal(now as nat) + bin_suffix(),
{
    proof {
        reveal_strlit("_");
        reveal_strlit(".bin");
    }
    let digits = decimal_string(now);
    let r = canister_id.concat("_").concat(data_type).concat("_").concat(digits.as_str()).concat(
        ".bin",
    );
    assert(r@ =~= canister_id@ + seq!['_'] + data_type@ + seq!['_'] + decimal(now as nat)
        + bin_suffix());
    r
}

/// The name under which a chunk is spilled for a valid replica id has the
/// form that `parse_canister_id_from_file_name` reads the id back from.
pub proof fn lemma_spill_name_round_trip(id: Seq<char>, now: nat)
    requires
        valid_id(id),
    ensures
        all_digits(decimal(now)),
        id + seq!['_'] + seq!['c', 'h', 'u', 'n', 'k'] + seq!['_'] + decimal(now) + bin_suffix()
            == chunk_file_name(id, decimal(now)),
{
    lemma_decimal_is_digits(now);
    assert(id + seq!['_'] + seq!['c', 'h', 'u', 'n', 'k'] + seq!['_'] + decimal(now) + bin_suffix()
        =~= chunk_file_name(id, decimal(now)));
}

/// Whether `lit` occurs in `s` at position `at`.
fn occurs_at(s: &str, at: usize, lit: &str) -> (r: bool)
    requires
        s@.len() <= usize::MAX,
    ensures
        r == (at + lit@.len() <= s@.len() && s@.subrange(at as int, at + lit@.len()) == lit@),
{
    let n = s.unicode_len();
    let m = lit.unicode_len();
    if at > n || n - at < m {
        return false;
    }
    let mut i: usize = 0;
    while i < m
        invariant
            n == s@.len(),
            m == lit@.len(),
            at + m <= n,
            i <= m,
            forall|j: int| 0 <= j < i ==> s@[at + j] == lit@[j],
        decreases m - i,
    {
        if s.get_char(at + i) != lit.get_char(i) {
            assert(s@.subrange(at as int, at + m)[i as int] != lit@[i as int]);
            return false;
        }
        i += 1;
    }
    assert(s@.subrange(at as int, at + m) =~= lit@);
    true
}

/// The replica id in the name of a spilled chunk's file, when the name has
/// the form `<id>_chunk_<digits>.bin`.
pub fn parse_canister_id_from_file_name(file_name: &str) -> (r: Option<String>)
    ensures
        r matches Some(id) ==> valid_id(id@) && exists|d: Seq<char>|
            all_digits(d) && file_name@ == chunk_file_name(id@, d),
        r matches Some(id) ==> forall|id2: Seq<char>, d: Seq<char>|
            valid_id(id2) && all_digits(d) && file_name@ == #[trigger] chunk_file_name(id2, d)
                ==> id2 == id@,
        r is None ==> forall|id: Seq<char>, d: Seq<char>|
            valid_id(id) && all_digits(d) ==> file_name@ != #[trigger] chunk_file_name(id, d),
{
    proof {
        reveal_strlit("_chunk_");
        reveal_strlit(".bin");
        assert("_chunk_"@ =~= chunk_tag());
        assert(".bin"@ =~= bin_suffix());
    }
    let n = file_name.unicode_len();
    let ghost s = file_name@;
    // The id runs up to the first character that is not an id character.
    let mut p: usize = 0;
    while p < n && is_id_char_exec(file_name.get_char(p))
        invariant
            s == file_name@,
            n == s.len(),
            p <= n,
            forall|j: int| 0 <= j < p ==> is_id_char(#[trigger] s[j]),
        decreases n - p,
    {
        p += 1;
    }
    if p == 0 || !occurs_at(file_name, p, "_chunk_") || n - p < 12 {
        proof {
            assert forall|id: Seq<char>, d: Seq<char>|
                valid_id(id) && all_digits(d) implies s != #[trigger] chunk_file_name(id, d) by {
                if s == chunk_file_name(id, d) {
                    lemma_name_parts(s, p as int, id, d);
                }
            }
        }
        return None;
    }
    let digits_start = p + 7;
    let digits_end = n - 4;
    if !occurs_at(file_name, digits_end, ".bin") {
        proof {
            assert forall|id: Seq<char>, d: Seq<char>|
                valid_id(id) && all_digits(d) implies s != #[trigger] chunk_file_name(id, d) by {
                if s == chunk_file_name(id, d) {
                    lemma_name_parts(s, p as int, id, d);
                }
            }
        }
        return None;
    }
    let mut q: usize = digits_start;
    while q < digits_end
        invariant
            s == file_name@,
            n == s.len(),
            digits_start <= q <= digits_end <= n,
            digits_start == p + 7,
            digits_end == n - 4,
            p <= n,
            forall|j: int| 0 <= j < p ==> is_id_char(#[trigger] s[j]),
            p == n || !is_id_char(s[p as int]),
            forall|j: int| digits_start <= j < q ==> is_digit(#[trigger] s[j]),
        decreases digits_end - q,
    {
        if !is_digit_exec(file_name.get_char(q)) {
            proof {
                assert forall|id: Seq<char>, d: Seq<char>|
                    valid_id(id) && all_digits(d) implies s != #[trigger] chunk_file_name(id, d) by {
                    if s == chunk_file_name(id, d) {
                        lemma_name_parts(s, p as int, id, d);
                        assert(is_digit(s[q as int]));
                    }
                }
            }
            return None;
        }
        q += 1;
    }
    let id = file_name.substring_char(0, p).to_owned();
    proof {
        let d = s.subrange(digits_start as int, digits_end as int);
        assert forall|i: int| 0 <= i < d.len() implies is_digit(#[trigger] d[i]) by {
            assert(d[i] == s[digits_start + i]);
        }
        assert(all_digits(d));
        assert(valid_id(id@));
        assert(s.subrange(p as int, p + 7) == chunk_tag());
        assert(s =~= chunk_file_name(id@, d));
        assert forall|id2: Seq<char>, d2: Seq<char>|
            valid_id(id2) && all_digits(d2) && s == #[trigger] chunk_file_name(id2, d2) implies id2
            == id@ by {
            lemma_name_parts(s, p as int, id2, d2);
            assert(id2 =~= s.subrange(0, p as int));
        }
    }
    Some(id)
}

/// Where the parts of a well-formed chunk file name lie, given the end `p`
/// of the longest prefix of id characters.
proof fn lemma_name_parts(s: Seq<char>, p: int, id: Seq<char>, d: Seq<char>)
    requires
        0 <= p <= s.len(),
        forall|j: int| 0 <= j < p ==> is_id_char(#[trigger] s[j]),
        p == s.len() || !is_id_char(s[p]),
        valid_id(id),
        all_digits(d),
        s == chunk_file_name(id, d),
    ensures
        p == id.len(),
        p > 0,
        s.len() - p >= 12,
        s.subrange(p, p + 7) == chunk_tag(),
        s.subrange(s.len() - 4, s.len() as int) == bin_suffix(),
        forall|j: int| p + 7 <= j < s.len() - 4 ==> is_digit(#[trigger] s[j]),
{
    assert(s[id.len() as int] == '_');
    if p < id.len() {
        assert(s[p] == id[p]);
    }
    if p > id.len() {
        assert(is_id_char(s[id.len() as int]));
    }
    assert(s.subrange(p, p + 7) =~= chunk_tag());
    assert(s.subrange(s.len() - 4, s.len() as int) =~= bin_suffix());
    assert forall|j: int| p + 7 <= j < s.len() - 4 implies is_digit(#[trigger] s[j]) by {
        assert(s[j] == d[j - p - 7]);
    }
}

fn is_id_char_exec(c: char) -> (r: bool)
    ensures
        r == is_id_char(c),
{
    ('a' <= c && c <= 'z') || ('0' <= c && c <= '9') || c == '-'
}

fn is_digit_exec(c: char) -> (r: bool)
    ensures
        r == is_digit(c),
{
    '0' <= c && c <= '9'
}

} // verus!
