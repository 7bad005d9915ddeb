//! Placeholder content for new cards: a random identifier, a random name as
//! title, and random words as description.
use vstd::prelude::*;
use vstd::string::StringExecFns;

verus! {

/// Fewest words in a new card's description.
pub const MIN_WORDS: usize = 3;

/// One more than the most words in a new card's description.
pub const MAX_WORDS: usize = 50;

/// Words separated by single spaces.
pub open spec fn joined(words: Seq<Seq<char>>) -> Seq<char>
    decreases words.len(),
{
    if words.len() == 0 {
        Seq::empty()
    } else if words.len() == 1 {
        words[0]
    } else {
        joined(words.drop_last()) + seq![' '] + words.last()
    }
}

pub open spec fn words_view(words: Vec<String>) -> Seq<Seq<char>> {
    words@.map_values(|w: String| w@)
}

/// Relies on `uuid::Uuid::new_v4` for a random identifier, and on the
/// `Display` of `uuid::Uuid`, which writes it in the hyphenated form of 36
/// characters.
#[verifier::external_body]
pub(crate) fn random_card_id() -> (r: String)
    ensures
        r@.len() == 36,
{
    uuid::Uuid::new_v4().to_string()
}

/// Relies on fake's `Name` faker, English locale, for a random person's name.
#[verifier::external_body]
pub(crate) fn fake_name() -> (r: String) {
    fake::Fake::fake::<String>(&fake::faker::name::raw::Name(fake::locales::EN))
}

/// Relies on fake's `Words` faker, English locale: a number of words drawn
/// from `min..max`, each a random lorem word. The range must not be empty.
#[verifier::external_body]
pub(crate) fn fake_words(min: usize, max: usize) -> (r: Vec<String>)
    requires
        min < max,
    ensures
        min <= r@.len() < max,
{
    fake::Fake::fake::<Vec<String>>(&fake::faker::lorem::raw::Words(fake::locales::EN, min..max))
}

/// The words separated by single spaces.
pub fn join_words(words: &Vec<String>) -> (r: String)
    ensures
        r@ == joined(words_view(*words)),
{
    let ghost ws = words_view(*words);
    let mut r = String::new();
    let mut i: usize = 0;
    while i < words.len()
        invariant
            i <= words@.len(),
            ws == words_view(*words),
            r@ == joined(ws.take(i as int)),
        decreases words@.len() - i,
    {
        assert(ws.take(i as int + 1).drop_last() =~= ws.take(i as int));
        let ghost t = ws.take(i as int + 1);
        assert(t.last() == words@[i as int]@);
        if i > 0 {
            proof {
                reveal_strlit(" ");
            }
            r.append(" ");
            assert(r@ == joined(t.drop_last()) + seq![' ']);
        } else {
            assert(ws.take(0) =~= Seq::<Seq<char>>::empty());
        }
        r.append(words[i].as_str());
        assert(r@ == joined(t));
        i = i + 1;
    }
    assert(ws.take(words@.len() as int) =~= ws);
    r
}

} // verus!
