use vstd::prelude::*;
use vstd::utf8::{encode_utf8, is_ascii_chars};
use crate::unicode::{
    ascii_lower, ascii_upper, ascii_uppercased, lemma_ascii_case_folds, str_to_lowercase, str_to_uppercase, to_lowercase, to_uppercase,
};

verus! {

/// The three-letter code that `iso3166_static` gives for the two-letter code
/// `code`, when `Alpha2::try_from` accepts it and `Alpha3::try_from` converts
/// the result.
pub uninterp spec fn iso_alpha3_for_alpha2(code: Seq<char>) -> Option<Seq<char>>;

/// Calls `iso3166_static::Alpha2::try_from(&str)`, then
/// `iso3166_static::Alpha3::try_from(Alpha2)`, and gives the three-letter
/// code of the result (`Alpha3::as_str`). Claimed: the result is
/// `iso_alpha3_for_alpha2(code@)`; a code with a non-ASCII character, or of
/// a length other than two, gives `None` (`Alpha2::from_str_slice` checks
/// both before its table lookup); a three-letter code is three uppercase
/// ASCII letters (every `alpha-3` entry of the crate's generated table is).
#[verifier::external_body]
fn alpha3_for_alpha2(code: &str) -> (r: Option<&'static str>)
    ensures
        r matches Some(a3) ==> iso_alpha3_for_alpha2(code@) == Some(a3@),
        r is None ==> iso_alpha3_for_alpha2(code@) is None,
        !is_ascii_chars(code@) ==> r is None,
        code@.len() != 2 ==> r is None,
        r matches Some(a3) ==> is_alpha3_shape(a3@),
{
    match iso3166_static::Alpha2::try_from(code) {
        Ok(alpha2) => match iso3166_static::Alpha3::try_from(alpha2) {
            Ok(alpha3) => Some(alpha3.as_str()),
            Err(_) => None,
        },
        Err(_) => None,
    }
}

/// Three uppercase ASCII letters.
pub open spec fn is_alpha3_shape(code: Seq<char>) -> bool {
    code.len() == 3 && forall|i: int| 0 <= i < 3 ==> 'A' <= #[trigger] code[i] <= 'Z'
}

/// The views of an optional string.
pub open spec fn opt_view(code: Option<&str>) -> Option<Seq<char>> {
    match code {
        Some(s) => Some(s@),
        None => None,
    }
}

/// What `Country::parse` gives for an optional code: nothing for no code or
/// an empty one; else the lowercased code with the three-letter code of the
/// uppercased code, when ISO 3166 knows it.
pub open spec fn parsed_country(code: Option<Seq<char>>) -> Option<(Seq<char>, Seq<char>)> {
    match code {
        None => None,
        Some(c) => if c.len() == 0 {
            None
        } else {
            match iso_alpha3_for_alpha2(str_to_uppercase(c)) {
                Some(a3) => Some((str_to_lowercase(c), a3)),
                None => None,
            }
        },
    }
}

/// What `Country::parse` gives for a non-empty ASCII code, from the code
/// with its letters uppercased: that code lowercased, with its three-letter
/// code, when ISO 3166 knows it.
pub open spec fn parsed_ascii_country(upper: Seq<char>) -> Option<(Seq<char>, Seq<char>)> {
    if upper.len() == 0 {
        None
    } else {
        match iso_alpha3_for_alpha2(upper) {
            Some(a3) => Some((upper.map_values(|c: char| ascii_lower(c)), a3)),
            None => None,
        }
    }
}

/// The views of an optional country.
pub open spec fn opt_country_view(c: Option<Country>) -> Option<(Seq<char>, Seq<char>)> {
    match c {
        Some(c) => Some(c@),
        None => None,
    }
}

/// A country, by its lowercase two-letter code and its uppercase
/// three-letter ISO 3166-1 code.
#[derive(Debug, Clone, PartialEq)]
pub struct Country {
    /// Two-letter code, lowercase (e.g. "no").
    pub name: String,
    /// Three-letter code, uppercase (e.g. "NOR").
    pub three_letter_code: String,
}

impl View for Country {
    type V = (Seq<char>, Seq<char>);

    open spec fn view(&self) -> (Seq<char>, Seq<char>) {
        (self.name@, self.three_letter_code@)
    }
}

impl Country {
    /// Norway.
    pub fn no() -> (c: Country)
        ensures
            c.name@ == seq!['n', 'o'],
            c.three_letter_code@ == seq!['N', 'O', 'R'],
    {
        proof {
            reveal_strlit("no");
            reveal_strlit("NOR");
        }
        let c = Country { name: "no".to_string(), three_letter_code: "NOR".to_string() };
        assert(c.name@ =~= seq!['n', 'o']);
        assert(c.three_letter_code@ =~= seq!['N', 'O', 'R']);
        c
    }

    /// Parses an optional two-letter country code, in any case.
    pub fn parse(code: Option<&str>) -> (r: Option<Country>)
        ensures
            opt_country_view(r) == parsed_country(opt_view(code)),
            match code {
                Some(c) => is_ascii_chars(c@) ==> opt_country_view(r) == parsed_ascii_country(
                    ascii_uppercased(c@),
                ),
                None => true,
            },
            match code {
                Some(c) => r is Some ==> is_ascii_chars(str_to_uppercase(c@)) && str_to_uppercase(
                    c@,
                ).len() == 2 && (is_ascii_chars(c@) ==> c@.len() == 2),
                None => true,
            },
            match r {
                Some(country) => is_alpha3_shape(country.three_letter_code@),
                None => true,
            },
    {
        let code = match code {
            Some(c) => c,
            None => return None,
        };
        if code.is_empty() {
            return None;
        }
        let upper = to_uppercase(code);
        let alpha3 = match alpha3_for_alpha2(upper.as_str()) {
            Some(a3) => a3,
            None => return None,
        };
        let name = to_lowercase(code);
        let three_letter_code = alpha3.to_string();
        proof {
            if is_ascii_chars(code@) {
                let up = ascii_uppercased(code@);
                assert forall|i: int| 0 <= i < code@.len() implies name@[i] == up.map_values(
                    |c: char| ascii_lower(c),
                )[i] by {
                    lemma_ascii_case_folds(code@[i]);
                }
                assert(name@ =~= up.map_values(|c: char| ascii_lower(c)));
            }
        }
        Some(Country { name, three_letter_code })
    }

    /// A copy of this country.
    pub fn duplicate(&self) -> (r: Country)
        ensures
            r@ == self@,
    {
        Country { name: self.name.clone(), three_letter_code: self.three_letter_code.clone() }
    }
}

/// Country codes are read regardless of the case of their ASCII letters:
/// two ASCII codes that differ only in the case of their letters parse to
/// the same country, or both to none.
pub proof fn lemma_parse_ignores_ascii_case(a: Seq<char>, b: Seq<char>)
    requires
        is_ascii_chars(a),
        is_ascii_chars(b),
        a.len() == b.len(),
        forall|i: int| 0 <= i < a.len() ==> ascii_upper(#[trigger] a[i]) == ascii_upper(b[i]),
    ensures
        parsed_ascii_country(ascii_uppercased(a)) == parsed_ascii_country(ascii_uppercased(b)),
{
    assert(ascii_uppercased(a) =~= ascii_uppercased(b));
}

/// The name that parsing the ASCII code `code` gives (empty when it gives
/// no country).
pub open spec fn parsed_name(code: Seq<char>) -> Seq<char> {
    match parsed_ascii_country(ascii_uppercased(code)) {
        Some(c) => c.0,
        None => Seq::empty(),
    }
}

/// The name of a parsed country is a code that parses back to the same
/// country: parsing an ASCII code and then parsing the resulting name gives
/// the first result again.
pub proof fn lemma_parse_name_round_trip(code: Seq<char>)
    requires
        is_ascii_chars(code),
        parsed_ascii_country(ascii_uppercased(code)) is Some,
    ensures
        is_ascii_chars(parsed_name(code)),
        parsed_ascii_country(ascii_uppercased(parsed_name(code))) == parsed_ascii_country(
            ascii_uppercased(code),
        ),
        parsed_name(code).len() == code.len(),
        forall|i: int|
            0 <= i < code.len() ==> !('A' <= #[trigger] parsed_name(code)[i] <= 'Z')
                && ascii_upper(parsed_name(code)[i]) == ascii_upper(code[i]),
{
    let up = ascii_uppercased(code);
    let name = parsed_name(code);
    assert(name == up.map_values(|c: char| ascii_lower(c)));
    assert forall|i: int| 0 <= i < name.len() implies '\0' <= #[trigger] name[i] <= '\u{7F}' by {
        assert('\0' <= code[i] <= '\u{7F}');
    }
    assert forall|i: int| 0 <= i < name.len() implies #[trigger] ascii_uppercased(name)[i]
        == up[i] by {
        lemma_ascii_case_folds(code[i]);
        lemma_ascii_case_folds(ascii_upper(code[i]));
        lemma_ascii_case_folds(ascii_lower(ascii_upper(code[i])));
    }
    assert(ascii_uppercased(name) =~= up);
    assert forall|i: int| 0 <= i < code.len() implies !('A' <= #[trigger] name[i] <= 'Z')
        && ascii_upper(name[i]) == ascii_upper(code[i]) by {
        lemma_ascii_case_folds(code[i]);
        lemma_ascii_case_folds(ascii_upper(code[i]));
        assert(ascii_uppercased(name)[i] == up[i]);
    }
}

/// Parsing a code looks up its uppercased form: no code and the empty code
/// give no country; any other code gives a country exactly when ISO 3166
/// knows the uppercased code, named by the lowercased code.
pub proof fn lemma_parsed_country_parts(c: Seq<char>)
    ensures
        parsed_country(None) is None,
        c.len() == 0 ==> parsed_country(Some(c)) is None,
        c.len() > 0 ==> (parsed_country(Some(c)) is Some <==> iso_alpha3_for_alpha2(
            str_to_uppercase(c),
        ) is Some),
        parsed_country(Some(c)) is Some ==> parsed_country(Some(c))->0 == (
            str_to_lowercase(c),
            iso_alpha3_for_alpha2(str_to_uppercase(c))->0,
        ),
{
}

/// The first id whose UTF-8 encoding is two bytes long, if any.
pub open spec fn first_two_byte_id(ids: Seq<Seq<char>>) -> Option<Seq<char>>
    decreases ids.len(),
{
    if ids.len() == 0 {
        None
    } else if encode_utf8(ids[0]).len() == 2 {
        Some(ids[0])
    } else {
        first_two_byte_id(ids.drop_first())
    }
}

/// The views of a sequence of string slices.
pub open spec fn str_views(ids: Seq<&str>) -> Seq<Seq<char>> {
    ids.map_values(|s: &str| s@)
}

/// The country of the first two-letter id among the region ids that a
/// boundary lookup returned (ids such as "NO" or "US-TX"), parsed as by
/// `Country::parse`.
pub fn country_from_region_ids(ids: &[&str]) -> (r: Option<Country>)
    ensures
        opt_country_view(r) == match first_two_byte_id(str_views(ids@)) {
            Some(id) => parsed_country(Some(id)),
            None => None,
        },
{
    let ghost all = str_views(ids@);
    proof {
        assert(all.skip(0) =~= all);
    }
    for i in 0..ids.len()
        invariant
            all == str_views(ids@),
            first_two_byte_id(all) == first_two_byte_id(all.skip(i as int)),
    {
        let id = ids[i];
        proof {
            assert(all.skip(i as int)[0] == id@);
            assert(all.skip(i as int).drop_first() =~= all.skip(i + 1));
        }
        if id.as_bytes().len() == 2 {
            return Country::parse(Some(id));
        }
    }
    proof {
        assert(all.skip(ids@.len() as int).len() == 0);
    }
    None
}

/// The region id chosen is the first one of two bytes: when one exists it
/// is that id, and no earlier id has two bytes; when none exists nothing is
/// chosen.
pub proof fn lemma_first_two_byte_id_is_first(ids: Seq<Seq<char>>)
    ensures
        first_two_byte_id(ids) is None <==> forall|k: int|
            0 <= k < ids.len() ==> encode_utf8(#[trigger] ids[k]).len() != 2,
        first_two_byte_id(ids) is Some ==> exists|k: int|
            0 <= k < ids.len() && ids[k] == first_two_byte_id(ids)->0 && encode_utf8(ids[k]).len()
                == 2 && forall|j: int| 0 <= j < k ==> encode_utf8(#[trigger] ids[j]).len() != 2,
    decreases ids.len(),
{
    if ids.len() > 0 {
        let rest = ids.drop_first();
        lemma_first_two_byte_id_is_first(rest);
        assert forall|k: int| 0 <= k < rest.len() implies #[trigger] rest[k] == ids[k + 1] by {}
        if encode_utf8(ids[0]).len() == 2 {
            assert(ids[0] == first_two_byte_id(ids)->0);
        } else {
            if first_two_byte_id(rest) is Some {
                let k = choose|k: int|
                    0 <= k < rest.len() && rest[k] == first_two_byte_id(rest)->0 && encode_utf8(
                        rest[k],
                    ).len() == 2 && forall|j: int|
                        0 <= j < k ==> encode_utf8(#[trigger] rest[j]).len() != 2;
                assert forall|j: int| 0 <= j < k + 1 implies encode_utf8(#[trigger] ids[j]).len()
                    != 2 by {
                    if j > 0 {
                        assert(ids[j] == rest[j - 1]);
                    }
                }
                assert(ids[k + 1] == rest[k]);
            } else {
                assert forall|k: int| 0 <= k < ids.len() implies encode_utf8(#[trigger] ids[k]).len()
                    != 2 by {
                    if k > 0 {
                        assert(ids[k] == rest[k - 1]);
                    }
                }
            }
        }
    }
}

} // verus!
