//! Node identifiers: text of the form `ADDR|TS`, their total order, and the
//! address that an identifier carries.

use vstd::prelude::*;
use vstd::string::*;
use vstd::utf8::*;

verus! {

/// The character that parts an identifier's address from its timestamp.
pub open spec fn separator() -> char {
    '|'
}

/// Whether `a` comes before `b` when both are read from position `i` on,
/// byte by byte: the first differing byte decides, and a text that ends
/// first comes first.
pub open spec fn bytes_lt_from(a: Seq<u8>, b: Seq<u8>, i: int) -> bool
    decreases a.len() - i,
{
    if i < 0 || i >= b.len() {
        false
    } else if i >= a.len() {
        true
    } else if a[i] != b[i] {
        a[i] < b[i]
    } else {
        bytes_lt_from(a, b, i + 1)
    }
}

/// Lexicographic order on byte strings.
pub open spec fn bytes_lt(a: Seq<u8>, b: Seq<u8>) -> bool {
    bytes_lt_from(a, b, 0)
}

/// The order of identifiers: lexicographic by the bytes of their UTF-8
/// encoding, which is the order of `String` itself.
pub open spec fn id_lt(a: Seq<char>, b: Seq<char>) -> bool {
    bytes_lt(encode_utf8(a), encode_utf8(b))
}

/// The texts of a list of strings.
pub open spec fn texts(v: Seq<String>) -> Seq<Seq<char>> {
    Seq::new(v.len(), |i: int| v[i]@)
}

/// Ascending with no two equal: each entry comes strictly before all later ones.
pub open spec fn strictly_sorted(ids: Seq<Seq<char>>) -> bool {
    forall|i: int, j: int| 0 <= i < j < ids.len() ==> id_lt(#[trigger] ids[i], #[trigger] ids[j])
}

/// Where the first separator stands in `id`, or `id.len()` if it has none.
pub open spec fn separator_index(id: Seq<char>) -> int
    decreases id.len(),
{
    if id.len() == 0 {
        0
    } else if id[0] == separator() {
        0
    } else {
        1 + separator_index(id.drop_first())
    }
}

/// An identifier is valid when it has a separator, so that it carries an address.
pub open spec fn valid_id(id: Seq<char>) -> bool {
    separator_index(id) < id.len()
}

/// Every identifier of the list is valid.
pub open spec fn all_valid(ids: Seq<Seq<char>>) -> bool {
    forall|i: int| 0 <= i < ids.len() ==> valid_id(#[trigger] ids[i])
}

/// The address of an identifier: what stands before its first separator.
pub open spec fn id_address(id: Seq<char>) -> Seq<char> {
    id.subrange(0, separator_index(id))
}

/// The addresses of a list of identifiers, in the same order.
pub open spec fn id_addresses(ids: Seq<Seq<char>>) -> Seq<Seq<char>> {
    Seq::new(ids.len(), |i: int| id_address(ids[i]))
}

/// The character of a decimal digit.
pub open spec fn digit_char(d: nat) -> char
    recommends
        d < 10,
{
    if d == 0 {
        '0'
    } else if d == 1 {
        '1'
    } else if d == 2 {
        '2'
    } else if d == 3 {
        '3'
    } else if d == 4 {
        '4'
    } else if d == 5 {
        '5'
    } else if d == 6 {
        '6'
    } else if d == 7 {
        '7'
    } else if d == 8 {
        '8'
    } else {
        '9'
    }
}

/// The decimal numeral of `n`, without leading zeros.
pub open spec fn decimal(n: nat) -> Seq<char>
    decreases n,
{
    if n < 10 {
        seq![digit_char(n)]
    } else {
        decimal(n / 10).push(digit_char(n % 10))
    }
}

/// The identifier of a node at `address` that joined at second `joined_at`.
pub open spec fn make_id(address: Seq<char>, joined_at: nat) -> Seq<char> {
    address.push(separator()) + decimal(joined_at)
}

/// What `separator_index` is: the position of the first separator.
pub proof fn lemma_separator_index(id: Seq<char>)
    ensures
        0 <= separator_index(id) <= id.len(),
        forall|j: int| 0 <= j < separator_index(id) ==> id[j] != separator(),
        separator_index(id) < id.len() ==> id[separator_index(id)] == separator(),
    decreases id.len(),
{
    if id.len() > 0 && id[0] != separator() {
        let rest = id.drop_first();
        lemma_separator_index(rest);
        assert forall|j: int| 0 <= j < separator_index(id) implies id[j] != separator() by {
            if j > 0 {
                assert(id[j] == rest[j - 1]);
            }
        }
    }
}

/// A position that holds the first separator is the separator index.
pub proof fn lemma_separator_found(id: Seq<char>, k: int)
    requires
        0 <= k < id.len(),
        id[k] == separator(),
        forall|j: int| 0 <= j < k ==> id[j] != separator(),
    ensures
        separator_index(id) == k,
        valid_id(id),
{
    lemma_separator_index(id);
}

/// A text without a separator is no valid identifier.
pub proof fn lemma_separator_missing(id: Seq<char>)
    requires
        forall|j: int| 0 <= j < id.len() ==> id[j] != separator(),
    ensures
        !valid_id(id),
{
    lemma_separator_index(id);
}

/// A made identifier is valid, and where the address has no separator of
/// its own, the identifier carries exactly that address.
pub proof fn lemma_make_id(address: Seq<char>, joined_at: nat)
    ensures
        valid_id(make_id(address, joined_at)),
        !address.contains(separator()) ==> id_address(make_id(address, joined_at)) =~= address,
{
    let id = make_id(address, joined_at);
    lemma_separator_index(id);
    assert(id[address.len() as int] == separator());
    if !address.contains(separator()) {
        assert forall|j: int| 0 <= j < address.len() implies id[j] != separator() by {
            assert(id[j] == address[j]);
        }
        lemma_separator_found(id, address.len() as int);
    }
}

/// No byte string comes before itself.
pub proof fn lemma_bytes_lt_irreflexive(a: Seq<u8>, i: int)
    ensures
        !bytes_lt_from(a, a, i),
    decreases a.len() - i,
{
    if 0 <= i < a.len() {
        lemma_bytes_lt_irreflexive(a, i + 1);
    }
}

/// The byte order is transitive.
pub proof fn lemma_bytes_lt_transitive(a: Seq<u8>, b: Seq<u8>, c: Seq<u8>, i: int)
    requires
        bytes_lt_from(a, b, i),
        bytes_lt_from(b, c, i),
    ensures
        bytes_lt_from(a, c, i),
    decreases a.len() - i,
{
    if i < a.len() && a[i] == b[i] && b[i] == c[i] {
        lemma_bytes_lt_transitive(a, b, c, i + 1);
    }
}

/// Two byte strings that agree before position `i` are equal, or one comes
/// before the other.
pub proof fn lemma_bytes_lt_total(a: Seq<u8>, b: Seq<u8>, i: int)
    requires
        0 <= i <= a.len(),
        i <= b.len(),
        forall|j: int| 0 <= j < i ==> a[j] == b[j],
    ensures
        a =~= b || bytes_lt_from(a, b, i) || bytes_lt_from(b, a, i),
    decreases a.len() - i,
{
    if i < a.len() && i < b.len() && a[i] == b[i] {
        lemma_bytes_lt_total(a, b, i + 1);
    }
}

/// No identifier comes before itself.
pub proof fn lemma_id_lt_irreflexive(a: Seq<char>)
    ensures
        !id_lt(a, a),
{
    lemma_bytes_lt_irreflexive(encode_utf8(a), 0);
}

/// The order of identifiers is transitive.
pub proof fn lemma_id_lt_transitive(a: Seq<char>, b: Seq<char>, c: Seq<char>)
    requires
        id_lt(a, b),
        id_lt(b, c),
    ensures
        id_lt(a, c),
{
    lemma_bytes_lt_transitive(encode_utf8(a), encode_utf8(b), encode_utf8(c), 0);
}

/// Of two identifiers at most one comes before the other.
pub proof fn lemma_id_lt_asymmetric(a: Seq<char>, b: Seq<char>)
    requires
        id_lt(a, b),
    ensures
        !id_lt(b, a),
        a != b,
{
    if id_lt(b, a) {
        lemma_id_lt_transitive(a, b, a);
    }
    lemma_id_lt_irreflexive(a);
}

/// The order of identifiers is total: two different identifiers are ordered.
pub proof fn lemma_id_lt_total(a: Seq<char>, b: Seq<char>)
    ensures
        a == b || id_lt(a, b) || id_lt(b, a),
{
    lemma_bytes_lt_total(encode_utf8(a), encode_utf8(b), 0);
    if encode_utf8(a) =~= encode_utf8(b) {
        encode_utf8_decode_utf8(a);
        encode_utf8_decode_utf8(b);
    }
}

/// A strictly sorted list holds no identifier twice.
pub proof fn lemma_sorted_no_duplicates(ids: Seq<Seq<char>>)
    requires
        strictly_sorted(ids),
    ensures
        ids.no_duplicates(),
{
    assert forall|i: int, j: int| 0 <= i < ids.len() && 0 <= j < ids.len() && i != j implies ids[i]
        != ids[j] by {
        if i < j {
            lemma_id_lt_asymmetric(ids[i], ids[j]);
        } else {
            lemma_id_lt_asymmetric(ids[j], ids[i]);
        }
    }
}

/// How two identifiers stand to each other in the order.
#[derive(Debug, Clone, Copy, PartialEq, Eq, Structural)]
pub enum Rank {
    Before,
    Same,
    After,
}

/// Compares two identifiers in the order of `id_lt`.
pub fn compare_ids(a: &str, b: &str) -> (r: Rank)
    ensures
        r == Rank::Before <==> id_lt(a@, b@),
        r == Rank::Same <==> a@ == b@,
        r == Rank::After <==> id_lt(b@, a@),
{
    let x = a.as_bytes();
    let y = b.as_bytes();
    let n: usize = x.len();
    let m: usize = y.len();
    let mut i: usize = 0;
    proof {
        lemma_id_lt_total(a@, b@);
        lemma_id_lt_irreflexive(a@);
        if id_lt(a@, b@) {
            lemma_id_lt_asymmetric(a@, b@);
        }
        if id_lt(b@, a@) {
            lemma_id_lt_asymmetric(b@, a@);
        }
    }
    while i < n && i < m
        invariant
            x@ == encode_utf8(a@),
            y@ == encode_utf8(b@),
            n == x@.len(),
            m == y@.len(),
            i <= n,
            i <= m,
            bytes_lt(x@, y@) == bytes_lt_from(x@, y@, i as int),
            bytes_lt(y@, x@) == bytes_lt_from(y@, x@, i as int),
        decreases n - i,
    {
        let p: u8 = x[i];
        let q: u8 = y[i];
        if p < q {
            return Rank::Before;
        }
        if q < p {
            return Rank::After;
        }
        i = i + 1;
    }
    if i < m {
        Rank::Before
    } else if i < n {
        Rank::After
    } else {
        Rank::Same
    }
}

/// Whether two texts are the same.
pub fn same_text(a: &str, b: &str) -> (r: bool)
    ensures
        r == (a@ == b@),
{
    match compare_ids(a, b) {
        Rank::Same => true,
        _ => false,
    }
}

/// A copy of a list of strings.
pub fn clone_texts(list: &Vec<String>) -> (copy: Vec<String>)
    ensures
        texts(copy@) == texts(list@),
        copy@.len() == list@.len(),
{
    let mut copy: Vec<String> = Vec::new();
    let mut i: usize = 0;
    while i < list.len()
        invariant
            i <= list.len(),
            copy.len() == i,
            forall|j: int| 0 <= j < i ==> copy@[j]@ == list@[j]@,
        decreases list.len() - i,
    {
        copy.push(list[i].clone());
        i = i + 1;
    }
    assert(texts(copy@) =~= texts(list@));
    copy
}

/// Whether `id` has a separator.
pub fn is_valid_id(id: &str) -> (r: bool)
    ensures
        r == valid_id(id@),
{
    find_separator(id).is_some()
}

/// The position of the first separator of `id`, if it has one.
pub fn find_separator(id: &str) -> (r: Option<usize>)
    ensures
        r is Some <==> valid_id(id@),
        r is Some ==> r->0 as int == separator_index(id@),
{
    let n: usize = id.unicode_len();
    let mut k: usize = 0;
    for ch in it: id.chars()
        invariant
            k == it.index(),
            it.seq() == id@,
            n == id@.len(),
            forall|j: int| 0 <= j < k ==> id@[j] != separator(),
    {
        if ch == '|' {
            proof {
                lemma_separator_found(id@, k as int);
            }
            return Some(k);
        }
        k = k + 1;
    }
    proof {
        lemma_separator_missing(id@);
    }
    None
}

/// The address that a valid identifier carries.
pub fn ip_from_id(id: &String) -> (ip: String)
    requires
        valid_id(id@),
    ensures
        ip@ == id_address(id@),
{
    let text = id.as_str();
    match find_separator(text) {
        Some(k) => text.substring_char(0, k).to_owned(),
        None => String::new(),
    }
}

/// The addresses of a list of valid identifiers, in the same order.
pub fn ips_from_ids(ids: &Vec<String>) -> (ips: Vec<String>)
    requires
        all_valid(texts(ids@)),
    ensures
        texts(ips@) == id_addresses(texts(ids@)),
{
    let mut ips: Vec<String> = Vec::new();
    let mut i: usize = 0;
    while i < ids.len()
        invariant
            i <= ids.len(),
            all_valid(texts(ids@)),
            ips.len() == i,
            forall|j: int| 0 <= j < i ==> ips@[j]@ == id_address(ids@[j]@),
        decreases ids.len() - i,
    {
        assert(valid_id(texts(ids@)[i as int]));
        ips.push(ip_from_id(&ids[i]));
        i = i + 1;
    }
    assert(texts(ips@) =~= id_addresses(texts(ids@)));
    ips
}

/// The text of one decimal digit.
fn digit_text(d: u64) -> (s: &'static str)
    requires
        d < 10,
    ensures
        s@ == seq![digit_char(d as nat)],
{
    proof {
        reveal_strlit("0");
        reveal_strlit("1");
        reveal_strlit("2");
        reveal_strlit("3");
        reveal_strlit("4");
        reveal_strlit("5");
        reveal_strlit("6");
        reveal_strlit("7");
        reveal_strlit("8");
        reveal_strlit("9");
    }
    let s = if d == 0 {
        "0"
    } else if d == 1 {
        "1"
    } else if d == 2 {
        "2"
    } else if d == 3 {
        "3"
    } else if d == 4 {
        "4"
    } else if d == 5 {
        "5"
    } else if d == 6 {
        "6"
    } else if d == 7 {
        "7"
    } else if d == 8 {
        "8"
    } else {
        "9"
    };
    assert(s@ =~= seq![digit_char(d as nat)]);
    s
}

/// Appends the decimal numeral of `n` to `out`.
pub fn push_decimal(out: &mut String, n: u64)
    ensures
        final(out)@ == old(out)@ + decimal(n as nat),
    decreases n,
{
    if n >= 10 {
        push_decimal(out, n / 10);
    }
    out.append(digit_text(n % 10));
    assert(out@ =~= old(out)@ + decimal(n as nat));
}

/// The identifier of a node at `address` that joined at second `joined_at`:
/// the address, a separator, and the second in decimal.
pub fn gen_id(address: &String, joined_at: u64) -> (id: String)
    ensures
        id@ == make_id(address@, joined_at as nat),
        valid_id(id@),
{
    let mut id = address.clone();
    proof {
        reveal_strlit("|");
        lemma_make_id(address@, joined_at as nat);
    }
    id.append("|");
    push_decimal(&mut id, joined_at);
    assert(id@ =~= make_id(address@, joined_at as nat));
    id
}

} // verus!
