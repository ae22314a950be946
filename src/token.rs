//! Token identifiers as byte strings: comparison, tickers, and the name and
//! symbol of a pool's receipt token.
use vstd::prelude::*;

verus! {

/// Display name prefix of every receipt token.
pub open spec fn lp_prefix_spec() -> Seq<u8> {
    seq![84u8, 70u8, 78u8]
}

/// Display name suffix of every receipt token.
pub open spec fn lp_suffix_spec() -> Seq<u8> {
    seq![76u8, 80u8]
}

/// Longest display name the issuance service accepts.
pub const LP_NAME_MAX_LEN: usize = 20;

/// Longest symbol the issuance service accepts.
pub const LP_TICKER_MAX_LEN: usize = 10;

/// Whether `id` is a well-formed token identifier, as the platform's
/// validator decides it.
pub uninterp spec fn token_identifier_valid(id: Seq<u8>) -> bool;

/// Relies on `token_identifier_util::validate_token_identifier`: it depends on the
/// bytes alone, and accepts only identifiers of 10 to 17 bytes.
#[verifier::external_body]
fn validate_token_identifier(id: &Vec<u8>) -> (r: bool)
    ensures
        r == token_identifier_valid(id@),
        r ==> 10 <= id@.len() <= 17,
{
    multiversx_sc::chain_core::token_identifier_util::validate_token_identifier(id.as_slice())
}

/// Relies on `token_identifier_util::get_token_ticker_len`: an identifier is its
/// ticker, a dash and six random characters.
#[verifier::external_body]
fn get_token_ticker_len(token_id_len: usize) -> (r: usize)
    requires
        token_id_len >= 7,
    ensures
        r == token_id_len - 7,
{
    multiversx_sc::chain_core::token_identifier_util::get_token_ticker_len(token_id_len)
}

/// The ticker of an identifier: a well-formed identifier without its dash and
/// random suffix; any other identifier as it is.
pub open spec fn ticker_of(id: Seq<u8>, valid: bool) -> Seq<u8> {
    if valid && id.len() >= 7 {
        id.subrange(0, id.len() - 7)
    } else {
        id
    }
}

/// Display name of the receipt token of a pool, from the two tickers.
pub open spec fn lp_name_of(token_ticker: Seq<u8>, base_ticker: Seq<u8>) -> Seq<u8> {
    let joined = token_ticker + base_ticker;
    let room = LP_NAME_MAX_LEN - lp_prefix_spec().len() - lp_suffix_spec().len();
    let kept = if joined.len() > room { joined.subrange(0, room as int) } else { joined };
    lp_prefix_spec() + kept + lp_suffix_spec()
}

/// Symbol of the receipt token of a pool, from the two tickers.
pub open spec fn lp_symbol_of(token_ticker: Seq<u8>, base_ticker: Seq<u8>) -> Seq<u8> {
    let joined = token_ticker + base_ticker;
    if joined.len() > LP_TICKER_MAX_LEN { joined.subrange(0, LP_TICKER_MAX_LEN as int) } else { joined }
}

/// Whether two identifiers hold the same bytes.
pub fn same_token(a: &Vec<u8>, b: &Vec<u8>) -> (r: bool)
    ensures
        r == (a@ == b@),
{
    if a.len() != b.len() {
        return false;
    }
    let mut i: usize = 0;
    while i < a.len()
        invariant
            a@.len() == b@.len(),
            0 <= i <= a@.len(),
            forall|j: int| 0 <= j < i ==> a@[j] == b@[j],
        decreases a@.len() - i,
    {
        if a[i] != b[i] {
            return false;
        }
        i = i + 1;
    }
    assert(a@ =~= b@);
    true
}

/// The first `n` bytes of `v`.
pub fn prefix_of(v: &Vec<u8>, n: usize) -> (r: Vec<u8>)
    requires
        n <= v@.len(),
    ensures
        r@ == v@.subrange(0, n as int),
{
    let mut r: Vec<u8> = Vec::new();
    let mut i: usize = 0;
    while i < n
        invariant
            n <= v@.len(),
            0 <= i <= n,
            r@ == v@.subrange(0, i as int),
        decreases n - i,
    {
        r.push(v[i]);
        i = i + 1;
        assert(r@ =~= v@.subrange(0, i as int));
    }
    r
}

/// A copy of `v`.
pub fn copy_token(v: &Vec<u8>) -> (r: Vec<u8>)
    ensures
        r@ == v@,
{
    let r = prefix_of(v, v.len());
    assert(v@.subrange(0, v@.len() as int) =~= v@);
    r
}

/// Appends the bytes of `b` to `a`.
fn append_bytes(a: &mut Vec<u8>, b: &Vec<u8>)
    ensures
        final(a)@ == old(a)@ + b@,
{
    let mut i: usize = 0;
    while i < b.len()
        invariant
            0 <= i <= b@.len(),
            a@ == old(a)@ + b@.subrange(0, i as int),
        decreases b@.len() - i,
    {
        a.push(b[i]);
        i = i + 1;
        assert(a@ =~= old(a)@ + b@.subrange(0, i as int));
    }
    assert(b@.subrange(0, b@.len() as int) =~= b@);
}

/// The ticker of `id`, given whether `id` is a well-formed identifier.
pub fn ticker_with(id: &Vec<u8>, valid: bool) -> (r: Vec<u8>)
    ensures
        r@ == ticker_of(id@, valid),
{
    if valid && id.len() >= 7 {
        let n = get_token_ticker_len(id.len());
        prefix_of(id, n)
    } else {
        copy_token(id)
    }
}

/// The ticker of `id` (see `ticker_of`).
pub fn token_ticker(id: &Vec<u8>) -> (r: Vec<u8>)
    ensures
        r@ == ticker_of(id@, token_identifier_valid(id@)),
{
    let valid = validate_token_identifier(id);
    ticker_with(id, valid)
}

/// Display name and symbol of the receipt token of a pool, from the tickers
/// of its two tokens.
pub fn lp_names_from_tickers(token_ticker: &Vec<u8>, base_ticker: &Vec<u8>) -> (r: (Vec<u8>, Vec<u8>))
    ensures
        r.0@ == lp_name_of(token_ticker@, base_ticker@),
        r.1@ == lp_symbol_of(token_ticker@, base_ticker@),
{
    let mut joined = copy_token(token_ticker);
    append_bytes(&mut joined, base_ticker);
    let mut name: Vec<u8> = vec![84u8, 70u8, 78u8];
    let suffix: Vec<u8> = vec![76u8, 80u8];
    assert(name@ =~= lp_prefix_spec());
    assert(suffix@ =~= lp_suffix_spec());
    let room: usize = LP_NAME_MAX_LEN - 3 - 2;
    let kept = if joined.len() > room { prefix_of(&joined, room) } else { copy_token(&joined) };
    append_bytes(&mut name, &kept);
    append_bytes(&mut name, &suffix);
    let symbol = if kept.len() > LP_TICKER_MAX_LEN { prefix_of(&kept, LP_TICKER_MAX_LEN) } else { kept };
    proof {
        let j = token_ticker@ + base_ticker@;
        assert(joined@ == j);
        if j.len() > room {
            assert(symbol@ =~= j.subrange(0, LP_TICKER_MAX_LEN as int));
        }
    }
    (name, symbol)
}

/// Display name and symbol of the receipt token of the pool of `token` and
/// `base_token`.
pub fn lp_token_names(token: &Vec<u8>, base_token: &Vec<u8>) -> (r: (Vec<u8>, Vec<u8>))
    ensures
        r.0@ == lp_name_of(
            ticker_of(token@, token_identifier_valid(token@)),
            ticker_of(base_token@, token_identifier_valid(base_token@)),
        ),
        r.1@ == lp_symbol_of(
            ticker_of(token@, token_identifier_valid(token@)),
            ticker_of(base_token@, token_identifier_valid(base_token@)),
        ),
{
    let t = token_ticker(token);
    let b = token_ticker(base_token);
    lp_names_from_tickers(&t, &b)
}

} // verus!
