//! API keys: the record kept for each key, and how a new key's text is made.
use crate::id_converter::{
    alphabet_ok, all_in, decimal_char, decimal_of, decimal_text, lemma_digits_below_10, short_of, IDConverter,
};
use crate::numeral::digits_lsf;
use vstd::prelude::*;

verus! {

/// The symbol alphabet API keys are written in.
pub const API_KEY_SYMBOLS: &'static str = "qwertyuiopasdfghjklzxcvbnm0192837465";

/// The digit alphabet API keys read decimal numerals in.
pub const API_KEY_DIGITS: &'static str = "5432189076";

/// A stored API key.
#[derive(Clone, Debug)]
pub struct ApiKey {
    pub value: String,
    pub assign_owner: String,
    pub associated_discord_user: String,
    pub enabled: bool,
    pub time_created: u128,
}

/// The number a new key is made from: eight times the number of keys already
/// issued plus twice the time in milliseconds.
pub open spec fn api_key_seed(doc_count: nat, now_millis: nat) -> nat {
    doc_count * 8 + now_millis * 2
}

/// The text of a new API key, given how many keys exist and the time now.
pub fn generate_api_key(doc_count: u64, now_millis: u64) -> (r: String)
    ensures
        r@ == short_of(
            API_KEY_SYMBOLS@,
            API_KEY_DIGITS@,
            api_key_seed(doc_count as nat, now_millis as nat),
        ),
{
    let symbols = String::from_str(API_KEY_SYMBOLS);
    let digits = String::from_str(API_KEY_DIGITS);
    proof {
        lemma_api_key_alphabets();
    }
    let seed: u128 = (doc_count as u128) * 8 + (now_millis as u128) * 2;
    match IDConverter::new(&symbols, &digits) {
        Ok(codec) => match codec.to_short(seed) {
            Ok(key) => key,
            Err(_) => {
                proof {
                    lemma_api_key_digits_cover(seed as nat);
                }
                String::new()
            },
        },
        Err(_) => String::new(),
    }
}

/// A newly issued key: enabled, and not yet assigned to anyone.
pub fn new_api_key(value: String, time_created: u128) -> (r: ApiKey)
    ensures
        r.value@ == value@,
        r.assign_owner@ == "None"@,
        r.associated_discord_user@ == "None"@,
        r.enabled,
        r.time_created == time_created,
{
    ApiKey {
        value,
        assign_owner: String::from_str("None"),
        associated_discord_user: String::from_str("None"),
        enabled: true,
        time_created,
    }
}

/// Whether a lookup found a key that may be used.
pub fn grants_access(entry: &Option<ApiKey>) -> (r: bool)
    ensures
        r == (entry is Some && entry->0.enabled),
{
    match entry {
        Some(key) => key.enabled,
        None => false,
    }
}

/// Both key alphabets can be used by the codec.
proof fn lemma_api_key_alphabets()
    ensures
        alphabet_ok(API_KEY_SYMBOLS@),
        alphabet_ok(API_KEY_DIGITS@),
{
    reveal_strlit("qwertyuiopasdfghjklzxcvbnm0192837465");
    reveal_strlit("5432189076");
    assert(API_KEY_SYMBOLS@.no_duplicates());
    assert(API_KEY_DIGITS@.no_duplicates());
}

/// The key digit alphabet holds every decimal digit.
proof fn lemma_api_key_digits_cover(v: nat)
    ensures
        all_in(decimal_text(v), API_KEY_DIGITS@),
{
    reveal_strlit("5432189076");
    let d = API_KEY_DIGITS@;
    if v == 0 {
        assert(d[7] == '0');
        assert(d.contains(decimal_text(0)[0]));
        return ;
    }
    lemma_digits_below_10(v);
    assert forall|i: int| 0 <= i < decimal_of(v).len() implies d.contains(
        #[trigger] decimal_of(v)[i],
    ) by {
        let k = digits_lsf(v, 10).reverse()[i];
        assert(k < 10);
        let c = decimal_char(k);
        if k == 0 {
            assert(d[7] == c);
        } else if k == 1 {
            assert(d[4] == c);
        } else if k == 2 {
            assert(d[3] == c);
        } else if k == 3 {
            assert(d[2] == c);
        } else if k == 4 {
            assert(d[1] == c);
        } else if k == 5 {
            assert(d[0] == c);
        } else if k == 6 {
            assert(d[9] == c);
        } else if k == 7 {
            assert(d[8] == c);
        } else if k == 8 {
            assert(d[5] == c);
        } else {
            assert(d[6] == c);
        }
    }
}

} // verus!
