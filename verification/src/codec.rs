//! The JSON document the data set is kept in.
//!
//! The document is one object with a `properties` object holding the
//! shared pet count and a `rentdata` object mapping each entry's name to
//! its input attributes. The writer emits the document in a fixed,
//! compact form; the reader accepts that form, with record keys in any
//! order, unknown record keys ignored, and a record missing a required
//! key skipped rather than failing the whole load.
//!
//! Parsing is specified by functions over the remaining text: each takes
//! a suffix of the document and yields what it recognised and the suffix
//! it left, or nothing when the text does not fit the grammar.

use vstd::prelude::*;
use vstd::string::{StringExecFns, StrSliceExecFns};
use crate::digits::{all_digits, dec_rep, digit_char, digit_val, is_digit_char, push_uint, val_of};
use crate::entry::{calculated, money_in_range, same_inputs, Entry, EntryView, MAX_CENTS};
use crate::fields::Fields;
use crate::store::Store;
use crate::text::{push_char, str_eq};

verus! {

/// A numeric token: optional minus sign, integer digits, and fraction
/// digits when a decimal point follows.
pub ghost struct NumTok {
    pub neg: bool,
    pub ip: Seq<char>,
    pub fp: Option<Seq<char>>,
}

/// A scalar value of a flat object: a string or a number.
pub ghost enum Scalar {
    Str(Seq<char>),
    Num(NumTok),
}

/// What a record object provides for each required key, once absorbed.
pub ghost struct RecAcc {
    pub beds: Option<i8>,
    pub baths: Option<i8>,
    pub deposit: Option<i64>,
    pub pet_deposit: Option<i64>,
    pub pet_monthly: Option<i64>,
    pub parking_monthly: Option<i64>,
    pub monthly_rent: Option<i64>,
    pub link: Option<Seq<char>>,
}

/// A record that has provided nothing yet.
pub open spec fn empty_rec() -> RecAcc {
    RecAcc {
        beds: None,
        baths: None,
        deposit: None,
        pet_deposit: None,
        pet_monthly: None,
        parking_monthly: None,
        monthly_rent: None,
        link: None,
    }
}

/// A parsed document: the pet count, when the properties held a usable
/// one, and the named records in document order.
pub ghost struct DocV {
    pub pet: Option<i8>,
    pub entries: Seq<(Seq<char>, RecAcc)>,
}

/// The longest digit run at the front of the text, and what follows it.
pub open spec fn sp_digits(s: Seq<char>) -> (Seq<char>, Seq<char>)
    decreases s.len(),
{
    if s.len() > 0 && is_digit_char(s[0]) {
        let (d, r) = sp_digits(s.skip(1));
        (seq![s[0]] + d, r)
    } else {
        (Seq::empty(), s)
    }
}

/// A numeric token at the front of the text: an optional minus sign,
/// at least one integer digit, and an optional point with at least one
/// fraction digit.
pub open spec fn sp_number(s: Seq<char>) -> Option<(NumTok, Seq<char>)> {
    let (neg, s1) = if s.len() > 0 && s[0] == '-' {
        (true, s.skip(1))
    } else {
        (false, s)
    };
    let (ip, s2) = sp_digits(s1);
    if ip.len() == 0 {
        None
    } else if s2.len() > 0 && s2[0] == '.' {
        let (fp, s3) = sp_digits(s2.skip(1));
        if fp.len() == 0 {
            None
        } else {
            Some((NumTok { neg, ip, fp: Some(fp) }, s3))
        }
    } else {
        Some((NumTok { neg, ip, fp: None }, s2))
    }
}

/// Whether a character is a hexadecimal digit.
pub open spec fn is_hex_char(c: char) -> bool {
    is_digit_char(c) || (97 <= c as u32 <= 102) || (65 <= c as u32 <= 70)
}

/// The value of a hexadecimal digit character.
pub open spec fn hex_val(c: char) -> int {
    if is_digit_char(c) {
        digit_val(c)
    } else if 97 <= c as u32 <= 102 {
        c as u32 - 87
    } else {
        c as u32 - 55
    }
}

/// Prepends a character to a string parse's result.
pub open spec fn sp_cons(c: char, r: Option<(Seq<char>, Seq<char>)>) -> Option<
    (Seq<char>, Seq<char>),
> {
    match r {
        Some((t, rest)) => Some((seq![c] + t, rest)),
        None => None,
    }
}

/// The body of a string literal up to its closing quote: plain
/// characters, the short escapes, and `\u00` followed by two hex digits.
pub open spec fn sp_str_body(s: Seq<char>) -> Option<(Seq<char>, Seq<char>)>
    decreases s.len(),
{
    if s.len() == 0 {
        None
    } else if s[0] == '"' {
        Some((Seq::empty(), s.skip(1)))
    } else if s[0] == '\\' {
        if s.len() < 2 {
            None
        } else {
            let e = s[1];
            if e == '"' || e == '\\' || e == '/' {
                sp_cons(e, sp_str_body(s.skip(2)))
            } else if e == 'n' {
                sp_cons('\n', sp_str_body(s.skip(2)))
            } else if e == 't' {
                sp_cons('\t', sp_str_body(s.skip(2)))
            } else if e == 'r' {
                sp_cons('\r', sp_str_body(s.skip(2)))
            } else if e == 'b' {
                sp_cons(8u8 as char, sp_str_body(s.skip(2)))
            } else if e == 'f' {
                sp_cons(12u8 as char, sp_str_body(s.skip(2)))
            } else if e == 'u' {
                if s.len() >= 6 && s[2] == '0' && s[3] == '0' && is_hex_char(s[4]) && is_hex_char(
                    s[5],
                ) {
                    sp_cons(((16 * hex_val(s[4]) + hex_val(s[5])) as u8) as char, sp_str_body(
                        s.skip(6)))
                } else {
                    None
                }
            } else {
                None
            }
        }
    } else {
        sp_cons(s[0], sp_str_body(s.skip(1)))
    }
}

/// A string literal at the front of the text.
pub open spec fn sp_string(s: Seq<char>) -> Option<(Seq<char>, Seq<char>)> {
    if s.len() > 0 && s[0] == '"' {
        sp_str_body(s.skip(1))
    } else {
        None
    }
}

/// A scalar at the front of the text: a string if a quote opens it, a
/// number otherwise.
pub open spec fn sp_scalar(s: Seq<char>) -> Option<(Scalar, Seq<char>)> {
    if s.len() > 0 && s[0] == '"' {
        match sp_string(s) {
            Some((t, rest)) => Some((Scalar::Str(t), rest)),
            None => None,
        }
    } else {
        match sp_number(s) {
            Some((tok, rest)) => Some((Scalar::Num(tok), rest)),
            None => None,
        }
    }
}

/// The exact literal at the front of the text, or nothing.
pub open spec fn sp_lit(s: Seq<char>, lit: Seq<char>) -> Option<Seq<char>> {
    if s.len() >= lit.len() && s.subrange(0, lit.len() as int) == lit {
        Some(s.skip(lit.len() as int))
    } else {
        None
    }
}

/// A small integer count, when the scalar is a fractionless number in
/// the count's range.
pub open spec fn as_i8(v: Scalar) -> Option<i8> {
    match v {
        Scalar::Num(tok) => {
            if tok.fp is Some {
                None
            } else {
                let m = val_of(tok.ip);
                let value = if tok.neg {
                    -m
                } else {
                    m
                };
                if -128 <= value <= 127 {
                    Some(value as i8)
                } else {
                    None
                }
            }
        },
        Scalar::Str(_) => None,
    }
}

/// The cent value of a fraction digit run: the first two digits, the
/// second taken as zero when absent; further digits are truncated.
pub open spec fn frac_cents(d: Seq<char>) -> int
    recommends
        d.len() >= 1,
{
    if d.len() == 1 {
        10 * digit_val(d[0])
    } else {
        10 * digit_val(d[0]) + digit_val(d[1])
    }
}

/// A money amount in cents, when the scalar is a number within the
/// handled range.
pub open spec fn as_money(v: Scalar) -> Option<i64> {
    match v {
        Scalar::Num(tok) => {
            let m = val_of(tok.ip) * 100 + match tok.fp {
                Some(d) => frac_cents(d),
                None => 0,
            };
            if m > MAX_CENTS as int {
                None
            } else if tok.neg {
                Some((-m) as i64)
            } else {
                Some(m as i64)
            }
        },
        Scalar::Str(_) => None,
    }
}

/// Free text, when the scalar is a string.
pub open spec fn as_text(v: Scalar) -> Option<Seq<char>> {
    match v {
        Scalar::Str(t) => Some(t),
        Scalar::Num(_) => None,
    }
}

/// Takes one record pair into the accumulator: a known key keeps the
/// last value it was given, converted for the key's type; an unknown
/// key changes nothing.
pub open spec fn absorb_rec(acc: RecAcc, key: Seq<char>, v: Scalar) -> RecAcc {
    if key == "beds"@ {
        RecAcc { beds: as_i8(v), ..acc }
    } else if key == "baths"@ {
        RecAcc { baths: as_i8(v), ..acc }
    } else if key == "deposit"@ {
        RecAcc { deposit: as_money(v), ..acc }
    } else if key == "petdeposit"@ {
        RecAcc { pet_deposit: as_money(v), ..acc }
    } else if key == "petmonthly"@ {
        RecAcc { pet_monthly: as_money(v), ..acc }
    } else if key == "parkingmonthly"@ {
        RecAcc { parking_monthly: as_money(v), ..acc }
    } else if key == "monthlyrent"@ {
        RecAcc { monthly_rent: as_money(v), ..acc }
    } else if key == "link"@ {
        RecAcc { link: as_text(v), ..acc }
    } else {
        acc
    }
}

/// Takes one properties pair: only `petcount` is used.
pub open spec fn absorb_prop(acc: Option<i8>, key: Seq<char>, v: Scalar) -> Option<i8> {
    if key == "petcount"@ {
        as_i8(v)
    } else {
        acc
    }
}

/// The pairs of a flat record object after its opening brace, folded
/// into the accumulator. The fuel bounds the pair count; one pair always
/// consumes text, so the text's length is fuel enough.
pub open spec fn sp_rec_pairs(s: Seq<char>, acc: RecAcc, fuel: nat) -> Option<
    (RecAcc, Seq<char>),
>
    decreases fuel,
{
    if fuel == 0 {
        None
    } else {
        match sp_string(s) {
            None => None,
            Some((key, s1)) => {
                if s1.len() > 0 && s1[0] == ':' {
                    match sp_scalar(s1.skip(1)) {
                        None => None,
                        Some((v, s2)) => {
                            let acc2 = absorb_rec(acc, key, v);
                            if s2.len() > 0 && s2[0] == ',' {
                                sp_rec_pairs(s2.skip(1), acc2, (fuel - 1) as nat)
                            } else if s2.len() > 0 && s2[0] == '}' {
                                Some((acc2, s2.skip(1)))
                            } else {
                                None
                            }
                        },
                    }
                } else {
                    None
                }
            },
        }
    }
}

/// A flat record object at the front of the text.
pub open spec fn sp_record(s: Seq<char>) -> Option<(RecAcc, Seq<char>)> {
    if s.len() >= 2 && s[0] == '{' && s[1] == '}' {
        Some((empty_rec(), s.skip(2)))
    } else if s.len() > 0 && s[0] == '{' {
        sp_rec_pairs(s.skip(1), empty_rec(), s.len())
    } else {
        None
    }
}

/// The pairs of the properties object after its opening brace.
pub open spec fn sp_prop_pairs(s: Seq<char>, acc: Option<i8>, fuel: nat) -> Option<
    (Option<i8>, Seq<char>),
>
    decreases fuel,
{
    if fuel == 0 {
        None
    } else {
        match sp_string(s) {
            None => None,
            Some((key, s1)) => {
                if s1.len() > 0 && s1[0] == ':' {
                    match sp_scalar(s1.skip(1)) {
                        None => None,
                        Some((v, s2)) => {
                            let acc2 = absorb_prop(acc, key, v);
                            if s2.len() > 0 && s2[0] == ',' {
                                sp_prop_pairs(s2.skip(1), acc2, (fuel - 1) as nat)
                            } else if s2.len() > 0 && s2[0] == '}' {
                                Some((acc2, s2.skip(1)))
                            } else {
                                None
                            }
                        },
                    }
                } else {
                    None
                }
            },
        }
    }
}

/// The properties object at the front of the text.
pub open spec fn sp_props(s: Seq<char>) -> Option<(Option<i8>, Seq<char>)> {
    if s.len() >= 2 && s[0] == '{' && s[1] == '}' {
        Some((None, s.skip(2)))
    } else if s.len() > 0 && s[0] == '{' {
        sp_prop_pairs(s.skip(1), None, s.len())
    } else {
        None
    }
}

/// The named records of the rentdata object after its opening brace.
pub open spec fn sp_entry_pairs(
    s: Seq<char>,
    acc: Seq<(Seq<char>, RecAcc)>,
    fuel: nat,
) -> Option<(Seq<(Seq<char>, RecAcc)>, Seq<char>)>
    decreases fuel,
{
    if fuel == 0 {
        None
    } else {
        match sp_string(s) {
            None => None,
            Some((name, s1)) => {
                if s1.len() > 0 && s1[0] == ':' {
                    match sp_record(s1.skip(1)) {
                        None => None,
                        Some((rec, s2)) => {
                            let acc2 = acc.push((name, rec));
                            if s2.len() > 0 && s2[0] == ',' {
                                sp_entry_pairs(s2.skip(1), acc2, (fuel - 1) as nat)
                            } else if s2.len() > 0 && s2[0] == '}' {
                                Some((acc2, s2.skip(1)))
                            } else {
                                None
                            }
                        },
                    }
                } else {
                    None
                }
            },
        }
    }
}

/// The rentdata object at the front of the text.
pub open spec fn sp_rentdata(s: Seq<char>) -> Option<(Seq<(Seq<char>, RecAcc)>, Seq<char>)> {
    if s.len() >= 2 && s[0] == '{' && s[1] == '}' {
        Some((Seq::empty(), s.skip(2)))
    } else if s.len() > 0 && s[0] == '{' {
        sp_entry_pairs(s.skip(1), Seq::empty(), s.len())
    } else {
        None
    }
}

/// The whole document: either the empty object, or the properties and
/// rentdata sections in the order the writer emits them.
pub open spec fn sp_doc(s: Seq<char>) -> Option<DocV> {
    if s == "{}"@ {
        Some(DocV { pet: None, entries: Seq::empty() })
    } else {
        match sp_lit(s, "{\"properties\":"@) {
            None => None,
            Some(s1) => match sp_props(s1) {
                None => None,
                Some((pet, s2)) => match sp_lit(s2, ",\"rentdata\":"@) {
                    None => None,
                    Some(s3) => match sp_rentdata(s3) {
                        None => None,
                        Some((entries, s4)) => {
                            if s4 == "}"@ {
                                Some(DocV { pet, entries })
                            } else {
                                None
                            }
                        },
                    },
                },
            },
        }
    }
}

/// The inputs of the entry a complete record describes, its derived
/// fields still zero.
pub open spec fn entry_of_rec(name: Seq<char>, rec: RecAcc) -> EntryView {
    EntryView {
        name: name,
        beds: rec.beds->0,
        baths: rec.baths->0,
        deposit: rec.deposit->0,
        pet_deposit: rec.pet_deposit->0,
        pet_monthly: rec.pet_monthly->0,
        parking_monthly: rec.parking_monthly->0,
        monthly_rent: rec.monthly_rent->0,
        total_rent: 0,
        rent_for_2: 0,
        rent_for_3: 0,
        rent_for_4: 0,
        link: rec.link->0,
    }
}

/// The entries the named records describe, in order, records missing a
/// required key skipped.
pub open spec fn built_entries(ps: Seq<(Seq<char>, RecAcc)>) -> Seq<EntryView>
    decreases ps.len(),
{
    if ps.len() == 0 {
        Seq::empty()
    } else {
        built_entries(ps.drop_last()) + (if rec_complete(ps.last().1) {
            seq![entry_of_rec(ps.last().0, ps.last().1)]
        } else {
            Seq::empty()
        })
    }
}

/// The entry list realises the built views: same inputs, derived fields
/// computed for a pet count of zero, every entry well-formed.
pub open spec fn entries_built_match(list: Seq<Entry>, built: Seq<EntryView>) -> bool {
    &&& list.len() == built.len()
    &&& forall|k: int|
        0 <= k < list.len() ==> same_inputs((#[trigger] list[k])@, built[k]) && calculated(
            list[k]@,
            0,
        ) && list[k]@.wf()
}

/// Reads the pairs of a record object after its opening brace.
fn p_rec_pairs(s: &str, i: usize, n: usize, acc: RecAccX, fuel: usize) -> (r: Option<
    (RecAccX, usize),
>)
    requires
        i <= n,
        n == s@.len(),
    ensures
        match sp_rec_pairs(s@.skip(i as int), acc_v(acc), fuel as nat) {
            None => r is None,
            Some((a2, rest)) => r matches Some(p) && acc_v(p.0) == a2 && i <= p.1 <= n && rest
                == s@.skip(p.1 as int),
        },
    decreases fuel,
{
    if fuel == 0 {
        return None;
    }
    match p_string(s, i, n) {
        None => None,
        Some((key, j1)) => {
            if j1 < n && s.get_char(j1) == ':' {
                proof {
                    assert(s@.skip(j1 as int)[0] == s@[j1 as int]);
                    assert(s@.skip(j1 as int).skip(1) =~= s@.skip(j1 + 1));
                }
                match p_scalar(s, j1 + 1, n) {
                    None => None,
                    Some((x, j2)) => {
                        let ghost pr = sp_scalar(s@.skip(j1 + 1))->0;
                        let ghost v = pr.0;
                        let acc2 = absorb_rec_x(acc, &key, x, Ghost(v));
                        if j2 < n && s.get_char(j2) == ',' {
                            proof {
                                assert(s@.skip(j2 as int)[0] == s@[j2 as int]);
                                assert(s@.skip(j2 as int).skip(1) =~= s@.skip(j2 + 1));
                            }
                            p_rec_pairs(s, j2 + 1, n, acc2, fuel - 1)
                        } else if j2 < n && s.get_char(j2) == '}' {
                            proof {
                                assert(s@.skip(j2 as int)[0] == s@[j2 as int]);
                                assert(s@.skip(j2 as int).skip(1) =~= s@.skip(j2 + 1));
                            }
                            Some((acc2, j2 + 1))
                        } else {
                            proof {
                                if j2 < n {
                                    assert(s@.skip(j2 as int)[0] == s@[j2 as int]);
                                }
                            }
                            None
                        }
                    },
                }
            } else {
                proof {
                    if j1 < n {
                        assert(s@.skip(j1 as int)[0] == s@[j1 as int]);
                    }
                }
                None
            }
        },
    }
}

/// Reads the record object starting at position `i`.
fn p_record(s: &str, i: usize, n: usize) -> (r: Option<(RecAccX, usize)>)
    requires
        i <= n,
        n == s@.len(),
    ensures
        match sp_record(s@.skip(i as int)) {
            None => r is None,
            Some((rec, rest)) => r matches Some(p) && acc_v(p.0) == rec && i <= p.1 <= n && rest
                == s@.skip(p.1 as int),
        },
{
    let empty_x = RecAccX {
        beds: None,
        baths: None,
        deposit: None,
        pet_deposit: None,
        pet_monthly: None,
        parking_monthly: None,
        monthly_rent: None,
        link: None,
    };
    if i < n && s.get_char(i) == '{' {
        proof {
            assert(s@.skip(i as int)[0] == s@[i as int]);
            assert(s@.skip(i as int).skip(1) =~= s@.skip(i + 1));
            assert(s@.skip(i as int).len() == n - i);
        }
        if n - i >= 2 && s.get_char(i + 1) == '}' {
            proof {
                assert(s@.skip(i as int)[1] == s@[i + 1]);
                assert(s@.skip(i as int).skip(2) =~= s@.skip(i + 2));
                assert(acc_v(empty_x) == empty_rec());
            }
            Some((empty_x, i + 2))
        } else {
            proof {
                if n - i >= 2 {
                    assert(s@.skip(i as int)[1] == s@[i + 1]);
                }
                assert(acc_v(empty_x) == empty_rec());
            }
            p_rec_pairs(s, i + 1, n, empty_x, n - i)
        }
    } else {
        proof {
            if i < n {
                assert(s@.skip(i as int)[0] == s@[i as int]);
            }
        }
        None
    }
}

/// Reads the pairs of the properties object after its opening brace.
fn p_prop_pairs(s: &str, i: usize, n: usize, acc: Option<i8>, fuel: usize) -> (r: Option<
    (Option<i8>, usize),
>)
    requires
        i <= n,
        n == s@.len(),
    ensures
        match sp_prop_pairs(s@.skip(i as int), acc, fuel as nat) {
            None => r is None,
            Some((a2, rest)) => r matches Some(p) && p.0 == a2 && i <= p.1 <= n && rest
                == s@.skip(p.1 as int),
        },
    decreases fuel,
{
    if fuel == 0 {
        return None;
    }
    match p_string(s, i, n) {
        None => None,
        Some((key, j1)) => {
            if j1 < n && s.get_char(j1) == ':' {
                proof {
                    assert(s@.skip(j1 as int)[0] == s@[j1 as int]);
                    assert(s@.skip(j1 as int).skip(1) =~= s@.skip(j1 + 1));
                }
                match p_scalar(s, j1 + 1, n) {
                    None => None,
                    Some((x, j2)) => {
                        let ghost pr = sp_scalar(s@.skip(j1 + 1))->0;
                        let ghost v = pr.0;
                        let acc2: Option<i8> = if str_eq(key.as_str(), "petcount") {
                            sc_as_i8(&x, Ghost(v))
                        } else {
                            acc
                        };
                        if j2 < n && s.get_char(j2) == ',' {
                            proof {
                                assert(s@.skip(j2 as int)[0] == s@[j2 as int]);
                                assert(s@.skip(j2 as int).skip(1) =~= s@.skip(j2 + 1));
                            }
                            p_prop_pairs(s, j2 + 1, n, acc2, fuel - 1)
                        } else if j2 < n && s.get_char(j2) == '}' {
                            proof {
                                assert(s@.skip(j2 as int)[0] == s@[j2 as int]);
                                assert(s@.skip(j2 as int).skip(1) =~= s@.skip(j2 + 1));
                            }
                            Some((acc2, j2 + 1))
                        } else {
                            proof {
                                if j2 < n {
                                    assert(s@.skip(j2 as int)[0] == s@[j2 as int]);
                                }
                            }
                            None
                        }
                    },
                }
            } else {
                proof {
                    if j1 < n {
                        assert(s@.skip(j1 as int)[0] == s@[j1 as int]);
                    }
                }
                None
            }
        },
    }
}

/// Reads the properties object starting at position `i`.
fn p_props(s: &str, i: usize, n: usize) -> (r: Option<(Option<i8>, usize)>)
    requires
        i <= n,
        n == s@.len(),
    ensures
        match sp_props(s@.skip(i as int)) {
            None => r is None,
            Some((pet, rest)) => r matches Some(p) && p.0 == pet && i <= p.1 <= n && rest
                == s@.skip(p.1 as int),
        },
{
    if i < n && s.get_char(i) == '{' {
        proof {
            assert(s@.skip(i as int)[0] == s@[i as int]);
            assert(s@.skip(i as int).skip(1) =~= s@.skip(i + 1));
            assert(s@.skip(i as int).len() == n - i);
        }
        if n - i >= 2 && s.get_char(i + 1) == '}' {
            proof {
                assert(s@.skip(i as int)[1] == s@[i + 1]);
                assert(s@.skip(i as int).skip(2) =~= s@.skip(i + 2));
            }
            Some((None, i + 2))
        } else {
            proof {
                if n - i >= 2 {
                    assert(s@.skip(i as int)[1] == s@[i + 1]);
                }
            }
            p_prop_pairs(s, i + 1, n, None, n - i)
        }
    } else {
        proof {
            if i < n {
                assert(s@.skip(i as int)[0] == s@[i as int]);
            }
        }
        None
    }
}

/// Reads the named records after the rentdata object's opening brace,
/// building an entry from each complete one.
fn p_entry_pairs(
    s: &str,
    i: usize,
    n: usize,
    list: Vec<Entry>,
    Ghost(pairs): Ghost<Seq<(Seq<char>, RecAcc)>>,
    fuel: usize,
) -> (r: Option<(Vec<Entry>, usize)>)
    requires
        i <= n,
        n == s@.len(),
        entries_built_match(list@, built_entries(pairs)),
    ensures
        match sp_entry_pairs(s@.skip(i as int), pairs, fuel as nat) {
            None => r is None,
            Some((ps, rest)) => r matches Some(p) && entries_built_match(
                p.0@,
                built_entries(ps),
            ) && i <= p.1 <= n && rest == s@.skip(p.1 as int),
        },
    decreases fuel,
{
    if fuel == 0 {
        return None;
    }
    match p_string(s, i, n) {
        None => None,
        Some((name, j1)) => {
            if j1 < n && s.get_char(j1) == ':' {
                proof {
                    assert(s@.skip(j1 as int)[0] == s@[j1 as int]);
                    assert(s@.skip(j1 as int).skip(1) =~= s@.skip(j1 + 1));
                }
                match p_record(s, j1 + 1, n) {
                    None => None,
                    Some((rx, j2)) => {
                        let ghost rec = acc_v(rx);
                        let ghost new_pairs = pairs.push((name@, rec));
                        proof {
                            assert(new_pairs.drop_last() =~= pairs);
                            assert(new_pairs.last() == (name@, rec));
                            lemma_sp_record_wf(s@.skip(j1 + 1));
                        }
                        let mut list2 = list;
                        let complete = rx.beds.is_some() && rx.baths.is_some()
                            && rx.deposit.is_some() && rx.pet_deposit.is_some()
                            && rx.pet_monthly.is_some() && rx.parking_monthly.is_some()
                            && rx.monthly_rent.is_some() && rx.link.is_some();
                        if complete {
                            let e = Entry::new(
                                name,
                                rx.beds.unwrap(),
                                rx.baths.unwrap(),
                                rx.deposit.unwrap(),
                                rx.pet_deposit.unwrap(),
                                rx.pet_monthly.unwrap(),
                                rx.parking_monthly.unwrap(),
                                rx.monthly_rent.unwrap(),
                                rx.link.unwrap(),
                            );
                            list2.push(e);
                        }
                        proof {
                            assert(entries_built_match(list2@, built_entries(new_pairs)));
                        }
                        if j2 < n && s.get_char(j2) == ',' {
                            proof {
                                assert(s@.skip(j2 as int)[0] == s@[j2 as int]);
                                assert(s@.skip(j2 as int).skip(1) =~= s@.skip(j2 + 1));
                            }
                            p_entry_pairs(s, j2 + 1, n, list2, Ghost(new_pairs), fuel - 1)
                        } else if j2 < n && s.get_char(j2) == '}' {
                            proof {
                                assert(s@.skip(j2 as int)[0] == s@[j2 as int]);
                                assert(s@.skip(j2 as int).skip(1) =~= s@.skip(j2 + 1));
                            }
                            Some((list2, j2 + 1))
                        } else {
                            proof {
                                if j2 < n {
                                    assert(s@.skip(j2 as int)[0] == s@[j2 as int]);
                                }
                            }
                            None
                        }
                    },
                }
            } else {
                proof {
                    if j1 < n {
                        assert(s@.skip(j1 as int)[0] == s@[j1 as int]);
                    }
                }
                None
            }
        },
    }
}

/// Reads the rentdata object starting at position `i`.
fn p_rentdata(s: &str, i: usize, n: usize) -> (r: Option<(Vec<Entry>, usize)>)
    requires
        i <= n,
        n == s@.len(),
    ensures
        match sp_rentdata(s@.skip(i as int)) {
            None => r is None,
            Some((ps, rest)) => r matches Some(p) && entries_built_match(
                p.0@,
                built_entries(ps),
            ) && i <= p.1 <= n && rest == s@.skip(p.1 as int),
        },
{
    if i < n && s.get_char(i) == '{' {
        proof {
            assert(s@.skip(i as int)[0] == s@[i as int]);
            assert(s@.skip(i as int).skip(1) =~= s@.skip(i + 1));
            assert(s@.skip(i as int).len() == n - i);
        }
        if n - i >= 2 && s.get_char(i + 1) == '}' {
            proof {
                assert(s@.skip(i as int)[1] == s@[i + 1]);
                assert(s@.skip(i as int).skip(2) =~= s@.skip(i + 2));
            }
            Some((Vec::new(), i + 2))
        } else {
            proof {
                if n - i >= 2 {
                    assert(s@.skip(i as int)[1] == s@[i + 1]);
                }
            }
            p_entry_pairs(s, i + 1, n, Vec::new(), Ghost(Seq::empty()), n - i)
        }
    } else {
        proof {
            if i < n {
                assert(s@.skip(i as int)[0] == s@[i as int]);
            }
        }
        None
    }
}

/// Reads the exact literal at position `i`.
fn p_lit(s: &str, i: usize, n: usize, lit: &str) -> (r: Option<usize>)
    requires
        i <= n,
        n == s@.len(),
    ensures
        match sp_lit(s@.skip(i as int), lit@) {
            None => r is None,
            Some(rest) => r matches Some(j) && i <= j <= n && rest == s@.skip(j as int),
        },
{
    let m = lit.unicode_len();
    if n - i < m {
        return None;
    }
    let mut k: usize = 0;
    while k < m
        invariant
            k <= m,
            i <= n,
            i + m <= n,
            n == s@.len(),
            m == lit@.len(),
            forall|t: int| 0 <= t < k ==> s@[i + t] == lit@[t],
        decreases m - k,
    {
        if s.get_char(i + k) != lit.get_char(k) {
            proof {
                assert(s@.skip(i as int).len() >= lit@.len());
                if s@.skip(i as int).subrange(0, lit@.len() as int) == lit@ {
                    assert(s@.skip(i as int).subrange(0, lit@.len() as int)[k as int]
                        == lit@[k as int]);
                    assert(s@.skip(i as int)[k as int] == s@[i + k]);
                }
            }
            return None;
        }
        k += 1;
    }
    proof {
        assert(s@.skip(i as int).subrange(0, lit@.len() as int) =~= lit@);
        assert(s@.skip(i as int).skip(lit@.len() as int) =~= s@.skip(i + m));
    }
    Some(i + m)
}

/// Reads a whole document.
#[verifier::rlimit(100)]
#[verifier::spinoff_prover]
fn p_doc(s: &str) -> (r: Option<(Option<i8>, Vec<Entry>)>)
    ensures
        match sp_doc(s@) {
            None => r is None,
            Some(doc) => r matches Some(p) && p.0 == doc.pet && entries_built_match(
                p.1@,
                built_entries(doc.entries),
            ),
        },
{
    let n = s.unicode_len();
    if str_eq(s, "{}") {
        return Some((None, Vec::new()));
    }
    proof {
        assert(s@.skip(0) =~= s@);
    }
    match p_lit(s, 0, n, "{\"properties\":") {
        None => None,
        Some(j1) => match p_props(s, j1, n) {
            None => None,
            Some((pet, j2)) => match p_lit(s, j2, n, ",\"rentdata\":") {
                None => None,
                Some(j3) => match p_rentdata(s, j3, n) {
                    None => None,
                    Some((list, j4)) => {
                        proof {
                            reveal_strlit("}");
                        }
                        if n - j4 == 1 && s.get_char(j4) == '}' {
                            proof {
                                assert(s@.skip(j4 as int) =~= "}"@);
                            }
                            Some((pet, list))
                        } else {
                            proof {
                                if s@.skip(j4 as int) == "}"@ {
                                    assert(s@.skip(j4 as int).len() == 1);
                                    assert(s@.skip(j4 as int)[0] == '}');
                                    assert(s@[j4 as int] == s@.skip(j4 as int)[0]);
                                }
                            }
                            None
                        }
                    },
                },
            },
        },
    }
}

/// Reads a money amount typed by hand, such as `1000`, `-2.5` or
/// `1000.25`, into cents: the syntax the document's numbers use, taken
/// whole, within the handled range; anything else is rejected and the
/// caller keeps the prior value.
pub fn parse_money_cents(text: &str) -> (r: Option<i64>)
    ensures
        match sp_number(text@) {
            None => r is None,
            Some((tok, rest)) => {
                if rest.len() == 0 {
                    r == as_money(Scalar::Num(tok))
                } else {
                    r is None
                }
            },
        },
        r matches Some(c) ==> money_in_range(c),
{
    let n = text.unicode_len();
    proof {
        assert(text@.skip(0) =~= text@);
    }
    match p_number(text, 0, n) {
        None => None,
        Some((nx, j)) => {
            if j < n {
                None
            } else {
                let ghost pr = sp_number(text@)->0;
                let ghost tok = pr.0;
                proof {
                    lemma_scalar_money_bounds_token(text@);
                }
                sc_as_money(&ScalarX::N(nx), Ghost(Scalar::Num(tok)))
            }
        },
    }
}

/// A money amount read from a whole numeric token lies in the handled
/// range.
proof fn lemma_scalar_money_bounds_token(s: Seq<char>)
    ensures
        sp_number(s) matches Some(p) ==> (as_money(Scalar::Num(p.0)) matches Some(c)
            ==> money_in_range(c)),
{
    if sp_number(s) is Some {
        let pr = sp_number(s)->0;
        let tok = pr.0;
        let s1 = if s.len() > 0 && s[0] == '-' {
            s.skip(1)
        } else {
            s
        };
        lemma_sp_digits_shape(s1);
        lemma_val_of_nonneg(tok.ip);
        match tok.fp {
            Some(d) => {
                let (ip, s2) = sp_digits(s1);
                lemma_sp_digits_shape(s2.skip(1));
                assert(is_digit_char(d[0]));
                if d.len() > 1 {
                    assert(is_digit_char(d[1]));
                }
                assert(frac_cents(d) >= 0);
            },
            None => {},
        }
    }
}

/// Loads a store from the document text: the written pet count when it
/// is present and usable, the fallback otherwise; one entry for each
/// record that provides every required key, in document order, with the
/// derived fields computed; nothing pending. Text that does not fit the
/// document grammar yields no store.
pub fn store_from_json(text: &str, fallback_pet_count: i8) -> (r: Option<Store>)
    ensures
        match sp_doc(text@) {
            None => r is None,
            Some(doc) => r matches Some(st) && ({
                let pet = if doc.pet is Some {
                    doc.pet->0
                } else {
                    fallback_pet_count
                };
                let built = built_entries(doc.entries);
                &&& st@.pet_count == pet
                &&& st@.dirty == false
                &&& st@.sort_field == Fields::Name
                &&& st@.entries.len() == built.len()
                &&& forall|k: int|
                    0 <= k < st@.entries.len() ==> same_inputs(
                        (#[trigger] st@.entries[k])@,
                        built[k],
                    ) && calculated(st@.entries[k]@, pet as int)
                &&& st@.wf()
            }),
        },
{
    match p_doc(text) {
        None => None,
        Some((pet_opt, list)) => {
            let pet = match pet_opt {
                Some(p) => p,
                None => fallback_pet_count,
            };
            Some(Store::from_parts(pet, list))
        },
    }
}

/// Writes a store's pet count and entries as the document text.
pub fn store_to_json(st: &Store) -> (r: String)
    requires
        st@.wf(),
    ensures
        r@ == render_doc(st@.pet_count, views_of(st@.entries)),
{
    render_document(st.pet_count(), st.entries())
}

/// The lowercase hexadecimal digit character.
pub open spec fn hex_char(d: int) -> char {
    if d < 10 {
        digit_char(d)
    } else {
        ((87 + d) as u8) as char
    }
}

/// How one character appears inside a written string literal: quote and
/// backslash escaped, control characters as `\u00` and two hex digits,
/// everything else as itself.
pub open spec fn esc_char(c: char) -> Seq<char> {
    if c == '"' {
        seq!['\\', '"']
    } else if c == '\\' {
        seq!['\\', '\\']
    } else if (c as u32) < 32 {
        seq!['\\', 'u', '0', '0', hex_char(c as u32 as int / 16), hex_char(c as u32 as int % 16)]
    } else {
        seq![c]
    }
}

/// The written body of a string literal.
pub open spec fn render_body(t: Seq<char>) -> Seq<char>
    decreases t.len(),
{
    if t.len() == 0 {
        Seq::empty()
    } else {
        esc_char(t[0]) + render_body(t.skip(1))
    }
}

/// A written string literal.
pub open spec fn render_string(t: Seq<char>) -> Seq<char> {
    seq!['"'] + render_body(t) + seq!['"']
}

/// A written integer count.
pub open spec fn render_i8(v: i8) -> Seq<char> {
    if v < 0 {
        seq!['-'] + dec_rep((-(v as int)) as nat)
    } else {
        dec_rep(v as nat)
    }
}

/// A written money amount: the cents as a decimal number with exactly
/// two fraction digits.
pub open spec fn render_money(c: i64) -> Seq<char> {
    let m = if c < 0 {
        -(c as int)
    } else {
        c as int
    };
    (if c < 0 {
        seq!['-']
    } else {
        Seq::<char>::empty()
    }) + dec_rep((m / 100) as nat) + seq!['.'] + seq![
        digit_char((m % 100) / 10),
        digit_char(m % 10),
    ]
}

/// A written record object, its keys in the writer's fixed order.
pub open spec fn render_record(v: EntryView) -> Seq<char> {
    "{\"beds\":"@ + render_i8(v.beds) + ",\"baths\":"@ + render_i8(v.baths) + ",\"deposit\":"@
        + render_money(v.deposit) + ",\"petdeposit\":"@ + render_money(v.pet_deposit)
        + ",\"petmonthly\":"@ + render_money(v.pet_monthly) + ",\"parkingmonthly\":"@
        + render_money(v.parking_monthly) + ",\"monthlyrent\":"@ + render_money(v.monthly_rent)
        + ",\"link\":"@ + render_string(v.link) + "}"@
}

/// A written named record.
pub open spec fn render_entry_pair(v: EntryView) -> Seq<char> {
    render_string(v.name) + seq![':'] + render_record(v)
}

/// The written rentdata pairs, comma-separated.
pub open spec fn render_entries(vs: Seq<EntryView>) -> Seq<char>
    decreases vs.len(),
{
    if vs.len() == 0 {
        Seq::empty()
    } else if vs.len() == 1 {
        render_entry_pair(vs[0])
    } else {
        render_entry_pair(vs[0]) + seq![','] + render_entries(vs.skip(1))
    }
}

/// The whole written document.
pub open spec fn render_doc(pet: i8, vs: Seq<EntryView>) -> Seq<char> {
    "{\"properties\":{\"petcount\":"@ + render_i8(pet) + "},\"rentdata\":{"@ + render_entries(vs)
        + "}}"@
}

/// A character that appears in a written string literal as itself.
pub open spec fn plain_char(c: char) -> bool {
    c != '"' && c != '\\' && c as u32 >= 32
}

/// A text of plain characters is written as itself.
pub proof fn lemma_render_body_plain(t: Seq<char>)
    requires
        forall|i: int| 0 <= i < t.len() ==> plain_char(#[trigger] t[i]),
    ensures
        render_body(t) == t,
    decreases t.len(),
{
    if t.len() > 0 {
        lemma_render_body_plain(t.skip(1));
        assert(esc_char(t[0]) == seq![t[0]]);
        assert(render_body(t) =~= t);
    }
}

/// Reading a written string body gives back the text: the escapes undo
/// exactly, and the closing quote ends it.
pub proof fn lemma_body_rt(t: Seq<char>, rest: Seq<char>)
    ensures
        sp_str_body(render_body(t) + (seq!['"'] + rest)) == Some((t, rest)),
    decreases t.len(),
{
    let s = render_body(t) + (seq!['"'] + rest);
    if t.len() == 0 {
        assert(s =~= seq!['"'] + rest);
        assert(s[0] == '"');
        assert(s.skip(1) =~= rest);
    } else {
        let c = t[0];
        let e = esc_char(c);
        let tail_s = render_body(t.skip(1)) + (seq!['"'] + rest);
        assert(s =~= e + tail_s);
        lemma_body_rt(t.skip(1), rest);
        assert(forall|k: int| 0 <= k < e.len() ==> s[k] == e[k]);
        if c == '"' {
            assert(s[0] == '\\' && s[1] == '"');
            assert(s.skip(2) =~= tail_s);
            assert(seq![c] + t.skip(1) =~= t);
        } else if c == '\\' {
            assert(s[0] == '\\' && s[1] == '\\');
            assert(s.skip(2) =~= tail_s);
            assert(seq![c] + t.skip(1) =~= t);
        } else if (c as u32) < 32 {
            let cu = c as u32 as int;
            assert(s[0] == '\\' && s[1] == 'u' && s[2] == '0' && s[3] == '0');
            assert(s[4] == hex_char(cu / 16));
            assert(s[5] == hex_char(cu % 16));
            assert(s.len() >= 6);
            assert(is_hex_char(hex_char(cu / 16)) && hex_val(hex_char(cu / 16)) == cu / 16);
            assert(is_hex_char(hex_char(cu % 16)) && hex_val(hex_char(cu % 16)) == cu % 16);
            assert(16 * hex_val(s[4]) + hex_val(s[5]) == cu);
            let b: u8 = cu as u8;
            assert(b as int == cu);
            let c2: char = b as char;
            assert(c2 as u32 == c as u32);
            crate::text::lemma_char_injective(c2, c);
            assert(((cu as u8) as char) == c);
            assert(s.skip(6) =~= tail_s);
            assert(seq![c] + t.skip(1) =~= t);
        } else {
            assert(e == seq![c]);
            assert(s[0] == c);
            assert(s.skip(1) =~= tail_s);
            assert(seq![c] + t.skip(1) =~= t);
        }
    }
}

/// Reading a written string literal gives back the text.
pub proof fn lemma_string_rt(t: Seq<char>, rest: Seq<char>)
    ensures
        sp_string(render_string(t) + rest) == Some((t, rest)),
{
    let s = render_string(t) + rest;
    assert(s[0] == '"');
    assert(s.skip(1) =~= render_body(t) + (seq!['"'] + rest));
    lemma_body_rt(t, rest);
}

/// The token a written integer count reads back as.
pub open spec fn i8_tok(v: i8) -> NumTok {
    NumTok {
        neg: v < 0,
        ip: dec_rep(if v < 0 {
            (-(v as int)) as nat
        } else {
            v as nat
        }),
        fp: None,
    }
}

/// Reading a written integer count gives back its value.
pub proof fn lemma_i8_rt(v: i8, rest: Seq<char>)
    requires
        rest.len() > 0,
        !is_digit_char(rest[0]),
        rest[0] != '.',
    ensures
        sp_number(render_i8(v) + rest) == Some((i8_tok(v), rest)),
        as_i8(Scalar::Num(i8_tok(v))) == Some(v),
{
    let s = render_i8(v) + rest;
    let m: nat = if v < 0 {
        (-(v as int)) as nat
    } else {
        v as nat
    };
    crate::digits::lemma_dec_rep(m);
    if v < 0 {
        assert(s[0] == '-');
        assert(!is_digit_char('-'));
        assert(s.skip(1) =~= dec_rep(m) + rest);
        lemma_sp_digits_exact(dec_rep(m), rest);
    } else {
        assert(s =~= dec_rep(m) + rest);
        lemma_sp_digits_exact(dec_rep(m), rest);
        assert(is_digit_char(s[0]));
        assert(s[0] != '-');
    }
}

/// The token a written money amount reads back as.
pub open spec fn money_tok(c: i64) -> NumTok {
    let m = if c < 0 {
        -(c as int)
    } else {
        c as int
    };
    NumTok {
        neg: c < 0,
        ip: dec_rep((m / 100) as nat),
        fp: Some(seq![digit_char((m % 100) / 10), digit_char(m % 10)]),
    }
}

/// Reading a written money amount gives back its cents.
pub proof fn lemma_money_rt(c: i64, rest: Seq<char>)
    requires
        money_in_range(c),
        rest.len() > 0,
        !is_digit_char(rest[0]),
        rest[0] != '.',
    ensures
        sp_number(render_money(c) + rest) == Some((money_tok(c), rest)),
        as_money(Scalar::Num(money_tok(c))) == Some(c),
{
    let s = render_money(c) + rest;
    let m = if c < 0 {
        -(c as int)
    } else {
        c as int
    };
    let fr = seq![digit_char((m % 100) / 10), digit_char(m % 10)];
    crate::digits::lemma_dec_rep((m / 100) as nat);
    assert(is_digit_char(fr[0]) && is_digit_char(fr[1]));
    assert(all_digits(fr)) by {
        assert(forall|k: int| 0 <= k < 2 ==> #[trigger] fr[k] == (if k == 0 {
            fr[0]
        } else {
            fr[1]
        }));
    }
    let after_ip = seq!['.'] + fr + rest;
    assert(!is_digit_char('.'));
    if c < 0 {
        assert(s[0] == '-');
        assert(!is_digit_char('-'));
        assert(s.skip(1) =~= dec_rep((m / 100) as nat) + after_ip);
        lemma_sp_digits_exact(dec_rep((m / 100) as nat), after_ip);
    } else {
        assert(s =~= dec_rep((m / 100) as nat) + after_ip);
        lemma_sp_digits_exact(dec_rep((m / 100) as nat), after_ip);
        assert(is_digit_char(s[0]));
        assert(s[0] != '-');
    }
    assert(after_ip[0] == '.');
    assert(after_ip.skip(1) =~= fr + rest);
    lemma_sp_digits_exact(fr, rest);
    assert(frac_cents(fr) == m % 100) by {
        assert(digit_val(digit_char((m % 100) / 10)) == (m % 100) / 10);
        assert(digit_val(digit_char(m % 10)) == m % 10);
        assert((m % 100) % 10 == m % 10) by (nonlinear_arith);
        assert(10 * ((m % 100) / 10) + (m % 100) % 10 == m % 100);
    }
    assert(val_of(money_tok(c).ip) * 100 + frac_cents(fr) == m) by {
        assert(val_of(money_tok(c).ip) == m / 100);
        assert((m / 100) * 100 + m % 100 == m);
    }
}

/// A numeric token in scalar position.
proof fn lemma_scalar_num(valtext: Seq<char>, tok: NumTok, rest: Seq<char>)
    requires
        sp_number(valtext + rest) == Some((tok, rest)),
        (valtext + rest).len() > 0,
        (valtext + rest)[0] != '"',
    ensures
        sp_scalar(valtext + rest) == Some((Scalar::Num(tok), rest)),
{
}

/// A string literal in scalar position.
proof fn lemma_scalar_str(t: Seq<char>, rest: Seq<char>)
    requires
        rest.len() >= 0,
    ensures
        sp_scalar(render_string(t) + rest) == Some((Scalar::Str(t), rest)),
{
    lemma_string_rt(t, rest);
    let s = render_string(t) + rest;
    assert(s[0] == '"');
}

/// Reading one written record pair absorbs it and moves to the rest:
/// to the next pair after a comma, or out of the object at its close.
proof fn lemma_rec_pair_step(
    key: Seq<char>,
    valtext: Seq<char>,
    v: Scalar,
    acc: RecAcc,
    tail: Seq<char>,
    fuel: nat,
)
    requires
        fuel >= 1,
        sp_scalar(valtext + tail) == Some((v, tail)),
        tail.len() > 0,
        tail[0] == ',' || tail[0] == '}',
    ensures
        tail[0] == ',' ==> sp_rec_pairs(
            render_string(key) + seq![':'] + valtext + tail,
            acc,
            fuel,
        ) == sp_rec_pairs(tail.skip(1), absorb_rec(acc, key, v), (fuel - 1) as nat),
        tail[0] == '}' ==> sp_rec_pairs(
            render_string(key) + seq![':'] + valtext + tail,
            acc,
            fuel,
        ) == Some((absorb_rec(acc, key, v), tail.skip(1))),
{
    let s = render_string(key) + seq![':'] + valtext + tail;
    let s1 = seq![':'] + (valtext + tail);
    assert(s =~= render_string(key) + s1);
    lemma_string_rt(key, s1);
    assert(s1[0] == ':');
    assert(s1.skip(1) =~= valtext + tail);
}

/// The record a written entry reads back as: every key provided, each
/// with the written input value.
pub open spec fn full_rec(v: EntryView) -> RecAcc {
    RecAcc {
        beds: Some(v.beds),
        baths: Some(v.baths),
        deposit: Some(v.deposit),
        pet_deposit: Some(v.pet_deposit),
        pet_monthly: Some(v.pet_monthly),
        parking_monthly: Some(v.parking_monthly),
        monthly_rent: Some(v.monthly_rent),
        link: Some(v.link),
    }
}

/// The shapes of the written record's key pieces, and that no two
/// required keys coincide.
#[verifier::spinoff_prover]
proof fn lemma_record_keys()
    ensures
        "{\"beds\":"@ == seq!['{'] + render_string("beds"@) + seq![':'],
        ",\"baths\":"@ == seq![','] + render_string("baths"@) + seq![':'],
        ",\"deposit\":"@ == seq![','] + render_string("deposit"@) + seq![':'],
        ",\"petdeposit\":"@ == seq![','] + render_string("petdeposit"@) + seq![':'],
        ",\"petmonthly\":"@ == seq![','] + render_string("petmonthly"@) + seq![':'],
        ",\"parkingmonthly\":"@ == seq![','] + render_string("parkingmonthly"@) + seq![':'],
        ",\"monthlyrent\":"@ == seq![','] + render_string("monthlyrent"@) + seq![':'],
        ",\"link\":"@ == seq![','] + render_string("link"@) + seq![':'],
        "}"@ == seq!['}'],
        "baths"@ != "beds"@,
        "deposit"@ != "beds"@ && "deposit"@ != "baths"@,
        "petdeposit"@ != "beds"@ && "petdeposit"@ != "baths"@ && "petdeposit"@ != "deposit"@,
        "petmonthly"@ != "beds"@ && "petmonthly"@ != "baths"@ && "petmonthly"@ != "deposit"@
            && "petmonthly"@ != "petdeposit"@,
        "parkingmonthly"@ != "beds"@ && "parkingmonthly"@ != "baths"@ && "parkingmonthly"@
            != "deposit"@ && "parkingmonthly"@ != "petdeposit"@ && "parkingmonthly"@
            != "petmonthly"@,
        "monthlyrent"@ != "beds"@ && "monthlyrent"@ != "baths"@ && "monthlyrent"@ != "deposit"@
            && "monthlyrent"@ != "petdeposit"@ && "monthlyrent"@ != "petmonthly"@
            && "monthlyrent"@ != "parkingmonthly"@,
        "link"@ != "beds"@ && "link"@ != "baths"@ && "link"@ != "deposit"@ && "link"@
            != "petdeposit"@ && "link"@ != "petmonthly"@ && "link"@ != "parkingmonthly"@
            && "link"@ != "monthlyrent"@,
{
    reveal_strlit("{\"beds\":");
    reveal_strlit(",\"baths\":");
    reveal_strlit(",\"deposit\":");
    reveal_strlit(",\"petdeposit\":");
    reveal_strlit(",\"petmonthly\":");
    reveal_strlit(",\"parkingmonthly\":");
    reveal_strlit(",\"monthlyrent\":");
    reveal_strlit(",\"link\":");
    reveal_strlit("}");
    reveal_strlit("beds");
    reveal_strlit("baths");
    reveal_strlit("deposit");
    reveal_strlit("petdeposit");
    reveal_strlit("petmonthly");
    reveal_strlit("parkingmonthly");
    reveal_strlit("monthlyrent");
    reveal_strlit("link");
    lemma_render_body_plain("beds"@);
    lemma_render_body_plain("baths"@);
    lemma_render_body_plain("deposit"@);
    lemma_render_body_plain("petdeposit"@);
    lemma_render_body_plain("petmonthly"@);
    lemma_render_body_plain("parkingmonthly"@);
    lemma_render_body_plain("monthlyrent"@);
    lemma_render_body_plain("link"@);
    assert("{\"beds\":"@ =~= seq!['{'] + (seq!['"'] + render_body("beds"@) + seq!['"']) + seq![
        ':',
    ]);
    assert(",\"baths\":"@ =~= seq![','] + (seq!['"'] + render_body("baths"@) + seq!['"']) + seq![
        ':',
    ]);
    assert(",\"deposit\":"@ =~= seq![','] + (seq!['"'] + render_body("deposit"@) + seq!['"'])
        + seq![':']);
    assert(",\"petdeposit\":"@ =~= seq![','] + (seq!['"'] + render_body("petdeposit"@)
        + seq!['"']) + seq![':']);
    assert(",\"petmonthly\":"@ =~= seq![','] + (seq!['"'] + render_body("petmonthly"@)
        + seq!['"']) + seq![':']);
    assert(",\"parkingmonthly\":"@ =~= seq![','] + (seq!['"'] + render_body("parkingmonthly"@)
        + seq!['"']) + seq![':']);
    assert(",\"monthlyrent\":"@ =~= seq![','] + (seq!['"'] + render_body("monthlyrent"@)
        + seq!['"']) + seq![':']);
    assert(",\"link\":"@ =~= seq![','] + (seq!['"'] + render_body("link"@) + seq!['"']) + seq![
        ':',
    ]);
    assert("}"@ =~= seq!['}']);
    assert("petmonthly"@[3] == 'm' && "petdeposit"@[3] == 'd');
    assert("link"@[0] == 'l' && "beds"@[0] == 'b');
}

/// The written text of a record's last four pairs and the object's
/// closing brace.
spec fn rec_tail_text(v: EntryView, rest: Seq<char>) -> Seq<char> {
    render_string("petmonthly"@) + seq![':'] + render_money(v.pet_monthly) + (seq![','] + (
    render_string("parkingmonthly"@) + seq![':'] + render_money(v.parking_monthly) + (seq![','] + (
    render_string("monthlyrent"@) + seq![':'] + render_money(v.monthly_rent) + (seq![','] + (
    render_string("link"@) + seq![':'] + render_string(v.link) + (seq!['}'] + rest)))))))
}

/// What absorbing a record's last four written pairs leaves.
spec fn rec_tail_acc(acc: RecAcc, v: EntryView) -> RecAcc {
    absorb_rec(
        absorb_rec(
            absorb_rec(
                absorb_rec(acc, "petmonthly"@, Scalar::Num(money_tok(v.pet_monthly))),
                "parkingmonthly"@,
                Scalar::Num(money_tok(v.parking_monthly)),
            ),
            "monthlyrent"@,
            Scalar::Num(money_tok(v.monthly_rent)),
        ),
        "link"@,
        Scalar::Str(v.link),
    )
}

/// Reading a record's last four written pairs absorbs them and ends the
/// object.
#[verifier::rlimit(100)]
#[verifier::spinoff_prover]
proof fn lemma_record_rt_tail(v: EntryView, acc: RecAcc, rest: Seq<char>, fuel: nat)
    requires
        v.wf(),
        fuel >= 4,
    ensures
        sp_rec_pairs(rec_tail_text(v, rest), acc, fuel) == Some((rec_tail_acc(acc, v), rest)),
{
    let t6 = render_string("parkingmonthly"@) + seq![':'] + render_money(v.parking_monthly) + (
    seq![','] + (render_string("monthlyrent"@) + seq![':'] + render_money(v.monthly_rent) + (seq![
        ',',
    ] + (render_string("link"@) + seq![':'] + render_string(v.link) + (seq!['}'] + rest)))));
    let t7 = render_string("monthlyrent"@) + seq![':'] + render_money(v.monthly_rent) + (seq![',']
        + (render_string("link"@) + seq![':'] + render_string(v.link) + (seq!['}'] + rest)));
    let t8 = render_string("link"@) + seq![':'] + render_string(v.link) + (seq!['}'] + rest);
    let c6 = seq![','] + t6;
    let c7 = seq![','] + t7;
    let c8 = seq![','] + t8;
    let cr = seq!['}'] + rest;
    lemma_money_rt(v.pet_monthly, c6);
    lemma_scalar_num(render_money(v.pet_monthly), money_tok(v.pet_monthly), c6);
    lemma_rec_pair_step("petmonthly"@, render_money(v.pet_monthly), Scalar::Num(
        money_tok(v.pet_monthly)), acc, c6, fuel);
    let a5 = absorb_rec(acc, "petmonthly"@, Scalar::Num(money_tok(v.pet_monthly)));
    assert(c6.skip(1) =~= t6);
    lemma_money_rt(v.parking_monthly, c7);
    lemma_scalar_num(render_money(v.parking_monthly), money_tok(v.parking_monthly), c7);
    lemma_rec_pair_step("parkingmonthly"@, render_money(v.parking_monthly), Scalar::Num(
        money_tok(v.parking_monthly)), a5, c7, (fuel - 1) as nat);
    let a6 = absorb_rec(a5, "parkingmonthly"@, Scalar::Num(money_tok(v.parking_monthly)));
    assert(c7.skip(1) =~= t7);
    lemma_money_rt(v.monthly_rent, c8);
    lemma_scalar_num(render_money(v.monthly_rent), money_tok(v.monthly_rent), c8);
    lemma_rec_pair_step("monthlyrent"@, render_money(v.monthly_rent), Scalar::Num(
        money_tok(v.monthly_rent)), a6, c8, (fuel - 2) as nat);
    let a7 = absorb_rec(a6, "monthlyrent"@, Scalar::Num(money_tok(v.monthly_rent)));
    assert(c8.skip(1) =~= t8);
    lemma_scalar_str(v.link, cr);
    lemma_rec_pair_step("link"@, render_string(v.link), Scalar::Str(v.link), a7, cr, (fuel
        - 3) as nat);
    assert(cr.skip(1) =~= rest);
    assert(rec_tail_text(v, rest) =~= render_string("petmonthly"@) + seq![':'] + render_money(
        v.pet_monthly) + c6);
}

/// The written text of a record's pairs, after its opening brace.
spec fn rec_head_text(v: EntryView, rest: Seq<char>) -> Seq<char> {
    render_string("beds"@) + seq![':'] + render_i8(v.beds) + (seq![','] + (
    render_string("baths"@) + seq![':'] + render_i8(v.baths) + (seq![','] + (
    render_string("deposit"@) + seq![':'] + render_money(v.deposit) + (seq![','] + (
    render_string("petdeposit"@) + seq![':'] + render_money(v.pet_deposit) + (seq![',']
        + rec_tail_text(v, rest))))))))
}

/// What absorbing all eight written pairs leaves.
spec fn rec_head_acc(v: EntryView) -> RecAcc {
    rec_tail_acc(
        absorb_rec(
            absorb_rec(
                absorb_rec(
                    absorb_rec(empty_rec(), "beds"@, Scalar::Num(i8_tok(v.beds))),
                    "baths"@,
                    Scalar::Num(i8_tok(v.baths)),
                ),
                "deposit"@,
                Scalar::Num(money_tok(v.deposit)),
            ),
            "petdeposit"@,
            Scalar::Num(money_tok(v.pet_deposit)),
        ),
        v,
    )
}

/// The back half of a written record, nested for reading.
#[verifier::rlimit(100)]
#[verifier::spinoff_prover]
proof fn lemma_record_shape_tail(v: EntryView, rest: Seq<char>)
    ensures
        ",\"petmonthly\":"@ + render_money(v.pet_monthly) + ",\"parkingmonthly\":"@
            + render_money(v.parking_monthly) + ",\"monthlyrent\":"@ + render_money(
            v.monthly_rent,
        ) + ",\"link\":"@ + render_string(v.link) + "}"@ + rest == seq![','] + rec_tail_text(
            v,
            rest,
        ),
{
    lemma_record_keys();
    assert(",\"petmonthly\":"@ + render_money(v.pet_monthly) + ",\"parkingmonthly\":"@
        + render_money(v.parking_monthly) + ",\"monthlyrent\":"@ + render_money(v.monthly_rent)
        + ",\"link\":"@ + render_string(v.link) + "}"@ + rest =~= seq![','] + rec_tail_text(
        v,
        rest,
    ));
}

/// A written record is the brace and its pairs in the writer's order.
#[verifier::rlimit(100)]
#[verifier::spinoff_prover]
proof fn lemma_record_shape(v: EntryView, rest: Seq<char>)
    ensures
        render_record(v) + rest == seq!['{'] + rec_head_text(v, rest),
{
    lemma_record_keys();
    lemma_record_shape_tail(v, rest);
    let back = seq![','] + rec_tail_text(v, rest);
    assert(render_record(v) + rest =~= "{\"beds\":"@ + render_i8(v.beds) + ",\"baths\":"@
        + render_i8(v.baths) + ",\"deposit\":"@ + render_money(v.deposit) + ",\"petdeposit\":"@
        + render_money(v.pet_deposit) + back);
    assert("{\"beds\":"@ + render_i8(v.beds) + ",\"baths\":"@ + render_i8(v.baths)
        + ",\"deposit\":"@ + render_money(v.deposit) + ",\"petdeposit\":"@ + render_money(
        v.pet_deposit,
    ) + back =~= seq!['{'] + rec_head_text(v, rest));
}

/// Reading all eight written pairs absorbs them in order.
#[verifier::rlimit(100)]
#[verifier::spinoff_prover]
proof fn lemma_record_rt_head(v: EntryView, rest: Seq<char>, fuel: nat)
    requires
        v.wf(),
        fuel >= 8,
    ensures
        sp_rec_pairs(rec_head_text(v, rest), empty_rec(), fuel) == Some((rec_head_acc(v), rest)),
{
    let t5 = rec_tail_text(v, rest);
    let t4 = render_string("petdeposit"@) + seq![':'] + render_money(v.pet_deposit) + (seq![',']
        + t5);
    let t3 = render_string("deposit"@) + seq![':'] + render_money(v.deposit) + (seq![','] + t4);
    let t2 = render_string("baths"@) + seq![':'] + render_i8(v.baths) + (seq![','] + t3);
    let c2 = seq![','] + t2;
    let c3 = seq![','] + t3;
    let c4 = seq![','] + t4;
    let c5 = seq![','] + t5;
    lemma_i8_rt(v.beds, c2);
    lemma_scalar_num(render_i8(v.beds), i8_tok(v.beds), c2);
    lemma_rec_pair_step("beds"@, render_i8(v.beds), Scalar::Num(i8_tok(v.beds)), empty_rec(), c2,
        fuel);
    let a1 = absorb_rec(empty_rec(), "beds"@, Scalar::Num(i8_tok(v.beds)));
    assert(c2.skip(1) =~= t2);
    lemma_i8_rt(v.baths, c3);
    lemma_scalar_num(render_i8(v.baths), i8_tok(v.baths), c3);
    lemma_rec_pair_step("baths"@, render_i8(v.baths), Scalar::Num(i8_tok(v.baths)), a1, c3, (fuel
        - 1) as nat);
    let a2 = absorb_rec(a1, "baths"@, Scalar::Num(i8_tok(v.baths)));
    assert(c3.skip(1) =~= t3);
    lemma_money_rt(v.deposit, c4);
    lemma_scalar_num(render_money(v.deposit), money_tok(v.deposit), c4);
    lemma_rec_pair_step("deposit"@, render_money(v.deposit), Scalar::Num(money_tok(v.deposit)),
        a2, c4, (fuel - 2) as nat);
    let a3 = absorb_rec(a2, "deposit"@, Scalar::Num(money_tok(v.deposit)));
    assert(c4.skip(1) =~= t4);
    lemma_money_rt(v.pet_deposit, c5);
    lemma_scalar_num(render_money(v.pet_deposit), money_tok(v.pet_deposit), c5);
    lemma_rec_pair_step("petdeposit"@, render_money(v.pet_deposit), Scalar::Num(
        money_tok(v.pet_deposit)), a3, c5, (fuel - 3) as nat);
    let a4 = absorb_rec(a3, "petdeposit"@, Scalar::Num(money_tok(v.pet_deposit)));
    assert(c5.skip(1) =~= t5);
    lemma_record_rt_tail(v, a4, rest, (fuel - 4) as nat);
    assert(rec_head_text(v, rest) =~= render_string("beds"@) + seq![':'] + render_i8(v.beds)
        + c2);
}

/// Absorbing the eight written pairs provides exactly the inputs.
#[verifier::rlimit(100)]
#[verifier::spinoff_prover]
proof fn lemma_rec_head_acc_eval(v: EntryView)
    requires
        v.wf(),
    ensures
        rec_head_acc(v) == full_rec(v),
{
    lemma_record_keys();
    lemma_i8_rt(v.beds, seq![',']);
    lemma_i8_rt(v.baths, seq![',']);
    lemma_money_rt(v.deposit, seq![',']);
    lemma_money_rt(v.pet_deposit, seq![',']);
    lemma_money_rt(v.pet_monthly, seq![',']);
    lemma_money_rt(v.parking_monthly, seq![',']);
    lemma_money_rt(v.monthly_rent, seq![',']);
}

/// Reading a written record gives back exactly the entry's inputs.
#[verifier::rlimit(100)]
#[verifier::spinoff_prover]
pub proof fn lemma_record_rt(v: EntryView, rest: Seq<char>)
    requires
        v.wf(),
    ensures
        sp_record(render_record(v) + rest) == Some((full_rec(v), rest)),
{
    let s = render_record(v) + rest;
    lemma_record_shape(v, rest);
    let t1 = rec_head_text(v, rest);
    let f1: nat = s.len();
    assert(s[0] == '{');
    assert(s[1] == '"') by {
        assert(t1[0] == '"');
    }
    assert(s.skip(1) =~= t1);
    assert(f1 >= 8) by {
        let t5 = rec_tail_text(v, rest);
        let t4 = render_string("petdeposit"@) + seq![':'] + render_money(v.pet_deposit) + (seq![
            ',',
        ] + t5);
        let t3 = render_string("deposit"@) + seq![':'] + render_money(v.deposit) + (seq![','] + t4);
        let t2 = render_string("baths"@) + seq![':'] + render_i8(v.baths) + (seq![','] + t3);
        assert(t5.len() >= 12);
        assert(t4.len() >= 3 + t5.len());
        assert(t3.len() >= 3 + t4.len());
        assert(t2.len() >= 3 + t3.len());
        assert(t1.len() >= 3 + t2.len());
    }
    lemma_record_rt_head(v, rest, f1);
    lemma_rec_head_acc_eval(v);
}

/// The named full records a sequence of entries writes.
pub open spec fn pairs_of(vs: Seq<EntryView>) -> Seq<(Seq<char>, RecAcc)> {
    vs.map_values(|v: EntryView| (v.name, full_rec(v)))
}

/// The written rentdata pairs are at least one character per entry.
proof fn lemma_render_entries_len(vs: Seq<EntryView>)
    ensures
        render_entries(vs).len() >= vs.len(),
    decreases vs.len(),
{
    if vs.len() > 1 {
        lemma_render_entries_len(vs.skip(1));
    }
}

/// Reading written rentdata pairs appends each entry's name and full
/// record, then leaves the object.
#[verifier::rlimit(100)]
#[verifier::spinoff_prover]
proof fn lemma_entries_rt(
    vs: Seq<EntryView>,
    acc: Seq<(Seq<char>, RecAcc)>,
    rest: Seq<char>,
    fuel: nat,
)
    requires
        forall|k: int| 0 <= k < vs.len() ==> (#[trigger] vs[k]).wf(),
        vs.len() >= 1,
        fuel >= vs.len(),
    ensures
        sp_entry_pairs(render_entries(vs) + (seq!['}'] + rest), acc, fuel) == Some(
            (acc + pairs_of(vs), rest),
        ),
    decreases vs.len(),
{
    let v0 = vs[0];
    let cr = seq!['}'] + rest;
    let s = render_entries(vs) + cr;
    if vs.len() == 1 {
        let r1 = seq![':'] + (render_record(v0) + cr);
        assert(s =~= render_string(v0.name) + r1);
        lemma_string_rt(v0.name, r1);
        assert(r1[0] == ':');
        assert(r1.skip(1) =~= render_record(v0) + cr);
        lemma_record_rt(v0, cr);
        assert(cr[0] == '}');
        assert(cr.skip(1) =~= rest);
        assert(acc.push((v0.name, full_rec(v0))) =~= acc + pairs_of(vs));
    } else {
        let tail2 = render_entries(vs.skip(1)) + cr;
        let r1 = seq![':'] + (render_record(v0) + (seq![','] + tail2));
        assert(s =~= render_string(v0.name) + r1);
        lemma_string_rt(v0.name, r1);
        assert(r1[0] == ':');
        assert(r1.skip(1) =~= render_record(v0) + (seq![','] + tail2));
        lemma_record_rt(v0, seq![','] + tail2);
        assert((seq![','] + tail2)[0] == ',');
        assert((seq![','] + tail2).skip(1) =~= tail2);
        assert(forall|k: int|
            0 <= k < vs.skip(1).len() ==> (#[trigger] vs.skip(1)[k]).wf());
        lemma_entries_rt(vs.skip(1), acc.push((v0.name, full_rec(v0))), rest, (fuel - 1) as nat);
        assert(pairs_of(vs).skip(1) =~= pairs_of(vs.skip(1)));
        assert(acc.push((v0.name, full_rec(v0))) + pairs_of(vs.skip(1)) =~= acc + pairs_of(vs));
    }
}

/// Reading a written rentdata object gives back every named record.
proof fn lemma_rentdata_rt(vs: Seq<EntryView>, rest: Seq<char>)
    requires
        forall|k: int| 0 <= k < vs.len() ==> (#[trigger] vs[k]).wf(),
    ensures
        sp_rentdata(seq!['{'] + render_entries(vs) + (seq!['}'] + rest)) == Some(
            (pairs_of(vs), rest),
        ),
{
    let s = seq!['{'] + render_entries(vs) + (seq!['}'] + rest);
    assert(s[0] == '{');
    if vs.len() == 0 {
        assert(s[1] == '}');
        assert(s.skip(2) =~= rest);
        assert(pairs_of(vs) =~= Seq::<(Seq<char>, RecAcc)>::empty());
    } else {
        assert(render_entries(vs)[0] == '"');
        assert(s[1] == '"');
        assert(s.skip(1) =~= render_entries(vs) + (seq!['}'] + rest));
        lemma_render_entries_len(vs);
        lemma_entries_rt(vs, Seq::empty(), rest, s.len());
        assert(Seq::<(Seq<char>, RecAcc)>::empty() + pairs_of(vs) =~= pairs_of(vs));
    }
}

/// Reading a written properties object gives back the pet count.
#[verifier::rlimit(100)]
#[verifier::spinoff_prover]
proof fn lemma_props_rt(pet: i8, rest: Seq<char>)
    ensures
        sp_props(
            seq!['{'] + (render_string("petcount"@) + seq![':'] + render_i8(pet) + (seq!['}']
                + rest)),
        ) == Some((Some(pet), rest)),
{
    reveal_strlit("petcount");
    let inner = render_string("petcount"@) + seq![':'] + render_i8(pet) + (seq!['}'] + rest);
    let s = seq!['{'] + inner;
    assert(s[0] == '{');
    assert(s[1] == '"');
    assert(s.skip(1) =~= inner);
    let cr = seq!['}'] + rest;
    let r1 = seq![':'] + (render_i8(pet) + cr);
    assert(inner =~= render_string("petcount"@) + r1);
    lemma_string_rt("petcount"@, r1);
    assert(r1[0] == ':');
    assert(r1.skip(1) =~= render_i8(pet) + cr);
    lemma_i8_rt(pet, cr);
    assert(cr[0] == '}');
    assert(cr.skip(1) =~= rest);
    assert(s.len() >= 1);
}

/// Saving then loading gives back what was saved: the document written
/// for a pet count and entries reads back as exactly that pet count and,
/// for every entry in order, a complete record holding exactly its
/// input fields. Derived fields are recomputed on load, not stored.
#[verifier::rlimit(100)]
#[verifier::spinoff_prover]
pub proof fn lemma_save_load_round_trip(pet: i8, vs: Seq<EntryView>)
    requires
        forall|k: int| 0 <= k < vs.len() ==> (#[trigger] vs[k]).wf(),
    ensures
        sp_doc(render_doc(pet, vs)) matches Some(doc) && doc.pet == Some(pet) && built_entries(
            doc.entries,
        ).len() == vs.len() && forall|k: int|
            0 <= k < vs.len() ==> same_inputs(built_entries(doc.entries)[k], vs[k]),
{
    let s = render_doc(pet, vs);
    reveal_strlit("{}");
    reveal_strlit("{\"properties\":");
    reveal_strlit("{\"properties\":{\"petcount\":");
    reveal_strlit("},\"rentdata\":{");
    reveal_strlit(",\"rentdata\":");
    reveal_strlit("}}");
    reveal_strlit("}");
    reveal_strlit("petcount");
    lemma_render_body_plain("petcount"@);
    let big = seq!['{'] + render_entries(vs) + (seq!['}'] + "}"@);
    let r2 = ",\"rentdata\":"@ + big;
    let p = seq!['{'] + (render_string("petcount"@) + seq![':'] + render_i8(pet) + (seq!['}']
        + r2));
    assert(render_string("petcount"@) =~= seq!['"'] + "petcount"@ + seq!['"']);
    assert(s =~= "{\"properties\":"@ + p);
    assert(s.len() != 2) by {
        assert(s.len() >= "{\"properties\":{\"petcount\":"@.len());
    }
    assert(s != "{}"@);
    let lit1 = "{\"properties\":"@;
    assert(s.subrange(0, lit1.len() as int) =~= lit1);
    assert(s.skip(lit1.len() as int) =~= p);
    assert(r2[0] == ',');
    lemma_props_rt(pet, r2);
    let lit2 = ",\"rentdata\":"@;
    assert(r2.subrange(0, lit2.len() as int) =~= lit2);
    assert(r2.skip(lit2.len() as int) =~= big);
    lemma_rentdata_rt(vs, "}"@);
    lemma_built_entries_full(vs);
}

/// The entries built from full records are exactly the written entries'
/// inputs.
proof fn lemma_built_entries_full(vs: Seq<EntryView>)
    ensures
        built_entries(pairs_of(vs)).len() == vs.len(),
        forall|k: int|
            0 <= k < vs.len() ==> same_inputs(#[trigger] built_entries(pairs_of(vs))[k], vs[k]),
    decreases vs.len(),
{
    if vs.len() > 0 {
        lemma_built_entries_full(vs.drop_last());
        assert(pairs_of(vs).drop_last() =~= pairs_of(vs.drop_last()));
        let ps = pairs_of(vs);
        assert(ps.last() == (vs.last().name, full_rec(vs.last())));
        assert(rec_complete(full_rec(vs.last())));
        assert(built_entries(ps) == built_entries(ps.drop_last()) + seq![
            entry_of_rec(vs.last().name, full_rec(vs.last())),
        ]);
        assert forall|k: int| 0 <= k < vs.len() implies same_inputs(
            #[trigger] built_entries(pairs_of(vs))[k],
            vs[k],
        ) by {
            if k < vs.len() - 1 {
                assert(built_entries(ps)[k] == built_entries(pairs_of(vs.drop_last()))[k]);
                assert(vs.drop_last()[k] == vs[k]);
            } else {
                assert(built_entries(ps)[k] == entry_of_rec(vs.last().name, full_rec(vs.last())));
            }
        }
    }
}

/// The views of a sequence of entries.
pub open spec fn views_of(s: Seq<Entry>) -> Seq<EntryView> {
    s.map_values(|e: Entry| e@)
}

/// Appends a written integer count.
fn push_i8(out: &mut String, v: i8)
    ensures
        final(out)@ == old(out)@ + render_i8(v),
{
    if v < 0 {
        push_char(out, '-');
        let m: u64 = (-(v as i64)) as u64;
        push_uint(out, m as u128);
        proof {
            assert(old(out)@ + render_i8(v) =~= (old(out)@.push('-')) + dec_rep(
                (-(v as int)) as nat));
        }
    } else {
        push_uint(out, v as u128);
    }
}

/// Appends a written money amount.
fn push_money(out: &mut String, c: i64)
    requires
        money_in_range(c),
    ensures
        final(out)@ == old(out)@ + render_money(c),
{
    let a: u64 = if c < 0 {
        push_char(out, '-');
        (-c) as u64
    } else {
        c as u64
    };
    push_uint(out, (a / 100) as u128);
    push_char(out, '.');
    let f: u64 = a % 100;
    push_char(out, (((f / 10) as u8) + 48) as char);
    push_char(out, (((f % 10) as u8) + 48) as char);
    proof {
        let m = if c < 0 {
            -(c as int)
        } else {
            c as int
        };
        assert(digit_char((m % 100) / 10) == (((f / 10) as u8) + 48) as char);
        assert(digit_char(m % 10) == (((f % 10) as u8) + 48) as char);
        assert(final(out)@ =~= old(out)@ + render_money(c));
    }
}

/// Appends the written body of a string literal, from position `i` on.
fn push_body_from(out: &mut String, t: &str, i: usize, n: usize)
    requires
        i <= n,
        n == t@.len(),
    ensures
        final(out)@ == old(out)@ + render_body(t@.skip(i as int)),
    decreases n - i,
{
    if i == n {
        proof {
            assert(t@.skip(i as int).len() == 0);
            assert(final(out)@ =~= old(out)@ + render_body(t@.skip(i as int)));
        }
    } else {
        let c = t.get_char(i);
        proof {
            assert(t@.skip(i as int)[0] == c);
        }
        let u = c as u32;
        if c == '"' {
            push_char(out, '\\');
            push_char(out, '"');
        } else if c == '\\' {
            push_char(out, '\\');
            push_char(out, '\\');
        } else if u < 32 {
            push_char(out, '\\');
            push_char(out, 'u');
            push_char(out, '0');
            push_char(out, '0');
            let hi = u / 16;
            let lo = u % 16;
            push_char(out, if hi < 10 {
                ((hi as u8) + 48) as char
            } else {
                ((hi as u8) + 87) as char
            });
            push_char(out, if lo < 10 {
                ((lo as u8) + 48) as char
            } else {
                ((lo as u8) + 87) as char
            });
        } else {
            push_char(out, c);
        }
        proof {
            assert(out@ =~= old(out)@ + esc_char(c));
        }
        push_body_from(out, t, i + 1, n);
        proof {
            assert(t@.skip(i as int).skip(1) =~= t@.skip(i + 1));
            assert(final(out)@ =~= old(out)@ + render_body(t@.skip(i as int)));
        }
    }
}

/// Appends a written string literal.
fn push_string_lit(out: &mut String, t: &str)
    ensures
        final(out)@ == old(out)@ + render_string(t@),
{
    push_char(out, '"');
    let n = t.unicode_len();
    push_body_from(out, t, 0, n);
    push_char(out, '"');
    proof {
        assert(t@.skip(0) =~= t@);
        assert(final(out)@ =~= old(out)@ + render_string(t@));
    }
}

/// Appends a written record object.
#[verifier::rlimit(100)]
#[verifier::spinoff_prover]
fn push_record(out: &mut String, e: &Entry)
    requires
        e@.wf(),
    ensures
        final(out)@ == old(out)@ + render_record(e@),
{
    out.append("{\"beds\":");
    push_i8(out, e.get_i8(Fields::Beds).unwrap());
    out.append(",\"baths\":");
    push_i8(out, e.get_i8(Fields::Baths).unwrap());
    out.append(",\"deposit\":");
    push_money(out, e.get_money(Fields::Deposit).unwrap());
    out.append(",\"petdeposit\":");
    push_money(out, e.get_money(Fields::PetDeposit).unwrap());
    out.append(",\"petmonthly\":");
    push_money(out, e.get_money(Fields::PetMonthly).unwrap());
    out.append(",\"parkingmonthly\":");
    push_money(out, e.get_money(Fields::ParkingMonthly).unwrap());
    out.append(",\"monthlyrent\":");
    push_money(out, e.get_money(Fields::MonthlyRent).unwrap());
    out.append(",\"link\":");
    let link = e.get_link();
    push_string_lit(out, link.as_str());
    out.append("}");
    proof {
        assert(final(out)@ =~= old(out)@ + render_record(e@));
    }
}

/// Appends the written rentdata pairs from position `i` on.
#[verifier::rlimit(100)]
#[verifier::spinoff_prover]
fn push_entries_from(out: &mut String, list: &Vec<Entry>, i: usize, n: usize)
    requires
        i <= n,
        n == list@.len(),
        forall|k: int| 0 <= k < list@.len() ==> (#[trigger] list@[k]@).wf(),
    ensures
        final(out)@ == old(out)@ + render_entries(views_of(list@).skip(i as int)),
    decreases n - i,
{
    let ghost vs = views_of(list@);
    if i == n {
        proof {
            assert(vs.skip(i as int).len() == 0);
            assert(final(out)@ =~= old(out)@ + render_entries(vs.skip(i as int)));
        }
    } else {
        let e = &list[i];
        let name = e.get_name();
        push_string_lit(out, name.as_str());
        push_char(out, ':');
        push_record(out, e);
        proof {
            assert(vs.skip(i as int)[0] == e@);
            assert(out@ =~= old(out)@ + render_entry_pair(e@));
        }
        if i + 1 < n {
            push_char(out, ',');
            push_entries_from(out, list, i + 1, n);
            proof {
                assert(vs.skip(i as int).skip(1) =~= vs.skip(i + 1));
                assert(vs.skip(i as int).len() > 1);
                assert(final(out)@ =~= old(out)@ + render_entries(vs.skip(i as int)));
            }
        } else {
            proof {
                assert(vs.skip(i as int).len() == 1);
                assert(final(out)@ =~= old(out)@ + render_entries(vs.skip(i as int)));
            }
        }
    }
}

/// Writes the whole document for the given pet count and entries.
#[verifier::rlimit(100)]
#[verifier::spinoff_prover]
pub fn render_document(pet_count: i8, list: &Vec<Entry>) -> (r: String)
    requires
        forall|k: int| 0 <= k < list@.len() ==> (#[trigger] list@[k]@).wf(),
    ensures
        r@ == render_doc(pet_count, views_of(list@)),
{
    let mut out = String::new();
    out.append("{\"properties\":{\"petcount\":");
    push_i8(&mut out, pet_count);
    out.append("},\"rentdata\":{");
    let n = list.len();
    push_entries_from(&mut out, list, 0, n);
    out.append("}}");
    proof {
        assert(views_of(list@).skip(0) =~= views_of(list@));
        assert(out@ =~= render_doc(pet_count, views_of(list@)));
    }
    out
}

/// Digit runs parse back exactly: the run, then whatever follows it,
/// provided what follows does not begin with a further digit.
pub proof fn lemma_sp_digits_exact(d: Seq<char>, rest: Seq<char>)
    requires
        all_digits(d),
        rest.len() == 0 || !is_digit_char(rest[0]),
    ensures
        sp_digits(d + rest) == (d, rest),
    decreases d.len(),
{
    if d.len() == 0 {
        assert(d + rest =~= rest);
    } else {
        assert((d + rest)[0] == d[0]);
        assert((d + rest).skip(1) =~= d.skip(1) + rest);
        lemma_sp_digits_exact(d.skip(1), rest);
        assert(seq![d[0]] + d.skip(1) =~= d);
    }
}

/// What a digit run's front looks like: the run is digits, and the rest
/// starts with no digit.
pub proof fn lemma_sp_digits_shape(s: Seq<char>)
    ensures
        all_digits(sp_digits(s).0),
        sp_digits(s).1.len() == 0 || !is_digit_char(sp_digits(s).1[0]),
        s == sp_digits(s).0 + sp_digits(s).1,
        sp_digits(s).0.len() + sp_digits(s).1.len() == s.len(),
    decreases s.len(),
{
    if s.len() > 0 && is_digit_char(s[0]) {
        lemma_sp_digits_shape(s.skip(1));
        let (d, r) = sp_digits(s.skip(1));
        assert forall|k: int| 0 <= k < (seq![s[0]] + d).len() implies is_digit_char(
            #[trigger] (seq![s[0]] + d)[k],
        ) by {
            if k > 0 {
                assert((seq![s[0]] + d)[k] == d[k - 1]);
            }
        }
        assert(s =~= seq![s[0]] + s.skip(1));
        assert(s =~= seq![s[0]] + d + r);
    } else {
        assert(s =~= Seq::<char>::empty() + s);
    }
}

/// The value a digit run denotes is not negative.
pub proof fn lemma_val_of_nonneg(d: Seq<char>)
    requires
        all_digits(d),
    ensures
        val_of(d) >= 0,
    decreases d.len(),
{
    if d.len() > 0 {
        assert(all_digits(d.drop_last())) by {
            assert(forall|k: int|
                0 <= k < d.len() - 1 ==> #[trigger] d.drop_last()[k] == d[k]);
        }
        lemma_val_of_nonneg(d.drop_last());
        assert(is_digit_char(d.last()));
    }
}

/// Cap on the integer values the reader tracks exactly; anything above
/// it is out of range for every field and only needs to be known as too
/// large.
const VAL_CAP: u64 = 100_000_000_000_000;

/// An executable numeric token: the value is exact unless `big` says the
/// digits exceeded the cap, which already exceeds every field's range.
struct NumX {
    neg: bool,
    big: bool,
    val: u64,
    has_frac: bool,
    frac_cents: u8,
}

/// How an executable numeric token reflects a specified one.
spec fn num_matches(x: NumX, tok: NumTok) -> bool {
    &&& x.neg == tok.neg
    &&& x.big == (val_of(tok.ip) > VAL_CAP as int)
    &&& (!x.big ==> x.val as int == val_of(tok.ip))
    &&& x.has_frac == (tok.fp is Some)
    &&& (tok.fp is Some ==> x.frac_cents as int == frac_cents(tok.fp->0))
    &&& (tok.fp is Some ==> all_digits(tok.fp->0) && tok.fp->0.len() >= 1)
    &&& all_digits(tok.ip)
}

/// An executable scalar.
enum ScalarX {
    S(String),
    N(NumX),
}

/// How an executable scalar reflects a specified one.
spec fn scalar_matches(x: ScalarX, v: Scalar) -> bool {
    match x {
        ScalarX::S(st) => v matches Scalar::Str(t) && st@ == t,
        ScalarX::N(nx) => v matches Scalar::Num(tok) && num_matches(nx, tok),
    }
}

/// The digit run starting at position `i`: where it ends and the value
/// it denotes, exactly when that value is within the cap.
struct DigitsX {
    end: usize,
    val: u64,
    big: bool,
}

/// Reads the digit run starting at position `i`.
fn p_digits(s: &str, i: usize, n: usize) -> (r: DigitsX)
    requires
        i <= n,
        n == s@.len(),
    ensures
        ({
            let (d, rest) = sp_digits(s@.skip(i as int));
            &&& i <= r.end <= n
            &&& d == s@.subrange(i as int, r.end as int)
            &&& rest == s@.skip(r.end as int)
            &&& r.big == (val_of(d) > VAL_CAP as int)
            &&& (!r.big ==> r.val as int == val_of(d))
        }),
{
    let mut j = i;
    let mut val: u64 = 0;
    let mut big = false;
    proof {
        assert(s@.subrange(i as int, i as int) =~= Seq::<char>::empty());
    }
    loop
        invariant_except_break
            i <= j <= n,
            n == s@.len(),
            all_digits(s@.subrange(i as int, j as int)),
            big == (val_of(s@.subrange(i as int, j as int)) > VAL_CAP as int),
            !big ==> val as int == val_of(s@.subrange(i as int, j as int)),
        ensures
            i <= j <= n,
            n == s@.len(),
            all_digits(s@.subrange(i as int, j as int)),
            big == (val_of(s@.subrange(i as int, j as int)) > VAL_CAP as int),
            !big ==> val as int == val_of(s@.subrange(i as int, j as int)),
            j == n || !is_digit_char(s@[j as int]),
        decreases n - j,
    {
        if j == n {
            break;
        }
        let c = s.get_char(j);
        let u = c as u32;
        if !(48 <= u && u <= 57) {
            break;
        }
        let dv: u64 = (u - 48) as u64;
        proof {
            let pre = s@.subrange(i as int, j as int);
            let cur = s@.subrange(i as int, j + 1);
            assert(cur.drop_last() =~= pre);
            assert(cur.last() == c);
            assert(val_of(cur) == val_of(pre) * 10 + dv);
            assert forall|k: int| 0 <= k < cur.len() implies is_digit_char(
                #[trigger] cur[k],
            ) by {
                if k < cur.len() - 1 {
                    assert(cur[k] == pre[k]);
                }
            }
        }
        if big {
            proof {
                let pre = s@.subrange(i as int, j as int);
                assert(val_of(pre) * 10 >= val_of(pre)) by (nonlinear_arith)
                    requires
                        val_of(pre) > VAL_CAP as int,
                ;
            }
        } else if val > VAL_CAP / 10 {
            big = true;
            proof {
                let pre = s@.subrange(i as int, j as int);
                assert(val_of(pre) * 10 + dv > VAL_CAP as int) by (nonlinear_arith)
                    requires
                        val_of(pre) == val as int,
                        val > VAL_CAP / 10,
                        VAL_CAP == 100_000_000_000_000u64,
                        dv >= 0,
                ;
            }
        } else {
            let nv = val * 10 + dv;
            if nv > VAL_CAP {
                big = true;
            } else {
                val = nv;
            }
        }
        j += 1;
    }
    proof {
        let d = s@.subrange(i as int, j as int);
        let rest = s@.skip(j as int);
        assert(s@.skip(i as int) =~= d + rest);
        if j < n {
            assert(rest[0] == s@[j as int]);
        }
        lemma_sp_digits_exact(d, rest);
    }
    DigitsX { end: j, val, big }
}

/// Reads the numeric token starting at position `i`.
fn p_number(s: &str, i: usize, n: usize) -> (r: Option<(NumX, usize)>)
    requires
        i <= n,
        n == s@.len(),
    ensures
        match sp_number(s@.skip(i as int)) {
            None => r is None,
            Some((tok, rest)) => r matches Some(p) && num_matches(p.0, tok) && i <= p.1 <= n
                && rest == s@.skip(p.1 as int),
        },
{
    let ghost s0 = s@.skip(i as int);
    let (neg, j0): (bool, usize) = if i < n && s.get_char(i) == '-' {
        (true, i + 1)
    } else {
        (false, i)
    };
    proof {
        if i < n {
            assert(s0[0] == s@[i as int]);
            assert(s0.skip(1) =~= s@.skip(i + 1));
        }
    }
    let d1 = p_digits(s, j0, n);
    proof {
        lemma_sp_digits_shape(s@.skip(j0 as int));
    }
    if d1.end == j0 {
        proof {
            assert(s@.subrange(j0 as int, j0 as int).len() == 0);
        }
        return None;
    }
    let ghost ip = s@.subrange(j0 as int, d1.end as int);
    if d1.end < n && s.get_char(d1.end) == '.' {
        proof {
            assert(s@.skip(d1.end as int)[0] == s@[d1.end as int]);
            assert(s@.skip(d1.end as int).skip(1) =~= s@.skip(d1.end + 1));
        }
        let d2 = p_digits(s, d1.end + 1, n);
        if d2.end == d1.end + 1 {
            proof {
                assert(s@.subrange(d1.end + 1, d1.end + 1).len() == 0);
            }
            return None;
        }
        let ghost fp = s@.subrange(d1.end + 1, d2.end as int);
        let c1 = s.get_char(d1.end + 1);
        proof {
            assert(fp[0] == s@[d1.end + 1]);
            lemma_sp_digits_shape(s@.skip(d1.end + 1));
            assert(is_digit_char(fp[0]));
        }
        let f: u8 = if d2.end - d1.end >= 3 {
            let c2 = s.get_char(d1.end + 2);
            proof {
                assert(fp[1] == s@[d1.end + 2]);
                assert(is_digit_char(fp[1]));
            }
            (10 * ((c1 as u32) - 48) + ((c2 as u32) - 48)) as u8
        } else {
            (10 * ((c1 as u32) - 48)) as u8
        };
        Some((NumX { neg, big: d1.big, val: d1.val, has_frac: true, frac_cents: f }, d2.end))
    } else {
        Some((NumX { neg, big: d1.big, val: d1.val, has_frac: false, frac_cents: 0 }, d1.end))
    }
}

/// The value of a hexadecimal digit character, when it is one.
fn hex_digit(c: char) -> (r: Option<u8>)
    ensures
        r is Some <==> is_hex_char(c),
        r is Some ==> r->0 as int == hex_val(c),
{
    let u = c as u32;
    if 48 <= u && u <= 57 {
        Some((u - 48) as u8)
    } else if 97 <= u && u <= 102 {
        Some((u - 87) as u8)
    } else if 65 <= u && u <= 70 {
        Some((u - 55) as u8)
    } else {
        None
    }
}

/// Reads a string literal's body from position `i` up to its closing
/// quote, undoing the escapes.
fn p_str_body(s: &str, i: usize, n: usize) -> (r: Option<(String, usize)>)
    requires
        i <= n,
        n == s@.len(),
    ensures
        match sp_str_body(s@.skip(i as int)) {
            None => r is None,
            Some((t, rest)) => r matches Some(p) && p.0@ == t && i <= p.1 <= n && rest
                == s@.skip(p.1 as int),
        },
    decreases n - i,
{
    let ghost s0 = s@.skip(i as int);
    if i == n {
        return None;
    }
    let c = s.get_char(i);
    proof {
        assert(s0[0] == c);
        assert(s0.skip(1) =~= s@.skip(i + 1));
    }
    if c == '"' {
        return Some((String::new(), i + 1));
    }
    if c == '\\' {
        if i + 1 >= n {
            return None;
        }
        let e = s.get_char(i + 1);
        proof {
            assert(s0[1] == e);
            assert(s0.skip(2) =~= s@.skip(i + 2));
        }
        let (ec, skip_by): (char, usize) = if e == '"' || e == '\\' || e == '/' {
            (e, 2)
        } else if e == 'n' {
            ('\n', 2)
        } else if e == 't' {
            ('\t', 2)
        } else if e == 'r' {
            ('\r', 2)
        } else if e == 'b' {
            (8u8 as char, 2)
        } else if e == 'f' {
            (12u8 as char, 2)
        } else if e == 'u' {
            if !(n - i > 5 && s.get_char(i + 2) == '0' && s.get_char(i + 3) == '0') {
                return None;
            }
            proof {
                assert(s0[2] == s@[i + 2]);
                assert(s0[3] == s@[i + 3]);
                assert(s0[4] == s@[i + 4]);
                assert(s0[5] == s@[i + 5]);
                assert(s0.skip(6) =~= s@.skip(i + 6));
            }
            let h1 = match hex_digit(s.get_char(i + 4)) {
                Some(h) => h,
                None => {
                    return None;
                },
            };
            let h2 = match hex_digit(s.get_char(i + 5)) {
                Some(h) => h,
                None => {
                    return None;
                },
            };
            ((16 * (h1 as u32) + (h2 as u32)) as u8 as char, 6)
        } else {
            return None;
        };
        match p_str_body(s, i + skip_by, n) {
            None => None,
            Some((tail, j)) => {
                let mut outp = String::new();
                push_char(&mut outp, ec);
                outp.append(tail.as_str());
                proof {
                    assert(outp@ =~= seq![ec] + tail@);
                }
                Some((outp, j))
            },
        }
    } else {
        match p_str_body(s, i + 1, n) {
            None => None,
            Some((tail, j)) => {
                let mut outp = String::new();
                push_char(&mut outp, c);
                outp.append(tail.as_str());
                proof {
                    assert(outp@ =~= seq![c] + tail@);
                }
                Some((outp, j))
            },
        }
    }
}

/// Reads the string literal starting at position `i`.
fn p_string(s: &str, i: usize, n: usize) -> (r: Option<(String, usize)>)
    requires
        i <= n,
        n == s@.len(),
    ensures
        match sp_string(s@.skip(i as int)) {
            None => r is None,
            Some((t, rest)) => r matches Some(p) && p.0@ == t && i <= p.1 <= n && rest
                == s@.skip(p.1 as int),
        },
{
    if i < n && s.get_char(i) == '"' {
        proof {
            assert(s@.skip(i as int)[0] == s@[i as int]);
            assert(s@.skip(i as int).skip(1) =~= s@.skip(i + 1));
        }
        p_str_body(s, i + 1, n)
    } else {
        proof {
            if i < n {
                assert(s@.skip(i as int)[0] == s@[i as int]);
            }
        }
        None
    }
}

/// Reads the scalar starting at position `i`.
fn p_scalar(s: &str, i: usize, n: usize) -> (r: Option<(ScalarX, usize)>)
    requires
        i <= n,
        n == s@.len(),
    ensures
        match sp_scalar(s@.skip(i as int)) {
            None => r is None,
            Some((v, rest)) => r matches Some(p) && scalar_matches(p.0, v) && i <= p.1 <= n
                && rest == s@.skip(p.1 as int),
        },
{
    if i < n && s.get_char(i) == '"' {
        proof {
            assert(s@.skip(i as int)[0] == s@[i as int]);
        }
        match p_string(s, i, n) {
            None => None,
            Some((st, j)) => Some((ScalarX::S(st), j)),
        }
    } else {
        proof {
            if i < n {
                assert(s@.skip(i as int)[0] == s@[i as int]);
            }
        }
        match p_number(s, i, n) {
            None => None,
            Some((nx, j)) => Some((ScalarX::N(nx), j)),
        }
    }
}

/// Every money amount a record provides lies in the handled range.
pub open spec fn rec_wf(rec: RecAcc) -> bool {
    &&& (rec.deposit matches Some(c) ==> money_in_range(c))
    &&& (rec.pet_deposit matches Some(c) ==> money_in_range(c))
    &&& (rec.pet_monthly matches Some(c) ==> money_in_range(c))
    &&& (rec.parking_monthly matches Some(c) ==> money_in_range(c))
    &&& (rec.monthly_rent matches Some(c) ==> money_in_range(c))
}

/// A money amount read from the text lies in the handled range.
proof fn lemma_scalar_money_bounds(s: Seq<char>)
    ensures
        sp_scalar(s) matches Some(p) ==> (as_money(p.0) matches Some(c) ==> money_in_range(c)),
{
    if sp_scalar(s) is Some {
        let pair = sp_scalar(s)->0;
        let v = pair.0;
        if v is Num {
            let tok = v->Num_0;
            let s1 = if s.len() > 0 && s[0] == '-' {
                s.skip(1)
            } else {
                s
            };
            lemma_sp_digits_shape(s1);
            lemma_val_of_nonneg(tok.ip);
            match tok.fp {
                Some(d) => {
                    let (ip, s2) = sp_digits(s1);
                    lemma_sp_digits_shape(s2.skip(1));
                    assert(is_digit_char(d[0]));
                    if d.len() > 1 {
                        assert(is_digit_char(d[1]));
                    }
                    assert(frac_cents(d) >= 0);
                },
                None => {},
            }
        }
    }
}

/// Absorbing the pairs of a record keeps its money amounts in range.
proof fn lemma_rec_pairs_wf(s: Seq<char>, acc: RecAcc, fuel: nat)
    requires
        rec_wf(acc),
    ensures
        sp_rec_pairs(s, acc, fuel) matches Some(p2) ==> rec_wf(p2.0),
    decreases fuel,
{
    if fuel > 0 && sp_rec_pairs(s, acc, fuel) is Some {
        match sp_string(s) {
            None => {},
            Some((key, s1)) => {
                if s1.len() > 0 && s1[0] == ':' {
                    match sp_scalar(s1.skip(1)) {
                        None => {},
                        Some((v, s2)) => {
                            lemma_scalar_money_bounds(s1.skip(1));
                            let acc2 = absorb_rec(acc, key, v);
                            assert(rec_wf(acc2));
                            if s2.len() > 0 && s2[0] == ',' {
                                lemma_rec_pairs_wf(s2.skip(1), acc2, (fuel - 1) as nat);
                            }
                        },
                    }
                }
            },
        }
    }
}

/// A record read from the text keeps its money amounts in range.
proof fn lemma_sp_record_wf(s: Seq<char>)
    ensures
        sp_record(s) matches Some(p) ==> rec_wf(p.0),
{
    if !(s.len() >= 2 && s[0] == '{' && s[1] == '}') && s.len() > 0 && s[0] == '{' {
        lemma_rec_pairs_wf(s.skip(1), empty_rec(), s.len());
    }
}

/// An executable record accumulator.
struct RecAccX {
    beds: Option<i8>,
    baths: Option<i8>,
    deposit: Option<i64>,
    pet_deposit: Option<i64>,
    pet_monthly: Option<i64>,
    parking_monthly: Option<i64>,
    monthly_rent: Option<i64>,
    link: Option<String>,
}

/// The record an executable accumulator stands for.
spec fn acc_v(a: RecAccX) -> RecAcc {
    RecAcc {
        beds: a.beds,
        baths: a.baths,
        deposit: a.deposit,
        pet_deposit: a.pet_deposit,
        pet_monthly: a.pet_monthly,
        parking_monthly: a.parking_monthly,
        monthly_rent: a.monthly_rent,
        link: match a.link {
            Some(st) => Some(st@),
            None => None,
        },
    }
}

/// The integer count a read scalar yields, if any.
fn sc_as_i8(x: &ScalarX, Ghost(v): Ghost<Scalar>) -> (r: Option<i8>)
    requires
        scalar_matches(*x, v),
    ensures
        r == as_i8(v),
{
    match x {
        ScalarX::S(_) => None,
        ScalarX::N(nx) => {
            if nx.has_frac {
                None
            } else if nx.big {
                proof {
                    let tok = v->Num_0;
                    lemma_val_of_nonneg(tok.ip);
                }
                None
            } else if nx.neg {
                if nx.val <= 128 {
                    Some((-(nx.val as i64)) as i8)
                } else {
                    None
                }
            } else {
                if nx.val <= 127 {
                    Some(nx.val as i8)
                } else {
                    None
                }
            }
        },
    }
}

/// The money amount a read scalar yields, if any; always in range.
fn sc_as_money(x: &ScalarX, Ghost(v): Ghost<Scalar>) -> (r: Option<i64>)
    requires
        scalar_matches(*x, v),
    ensures
        r == as_money(v),
{
    match x {
        ScalarX::S(_) => None,
        ScalarX::N(nx) => {
            proof {
                let tok = v->Num_0;
                lemma_val_of_nonneg(tok.ip);
            }
            if nx.big {
                proof {
                    let tok = v->Num_0;
                    let f = match tok.fp {
                        Some(d) => frac_cents(d),
                        None => 0,
                    };
                    assert(f >= 0) by {
                        match tok.fp {
                            Some(d) => {
                                assert(is_digit_char(d[0]));
                                if d.len() > 1 {
                                    assert(is_digit_char(d[1]));
                                }
                            },
                            None => {},
                        }
                    }
                    assert(val_of(tok.ip) * 100 > MAX_CENTS as int) by (nonlinear_arith)
                        requires
                            val_of(tok.ip) > VAL_CAP as int,
                            VAL_CAP == 100_000_000_000_000u64,
                            MAX_CENTS == 1_000_000_000_000i64,
                    ;
                }
                None
            } else {
                let f: u64 = if nx.has_frac {
                    nx.frac_cents as u64
                } else {
                    0
                };
                proof {
                    let tok = v->Num_0;
                    match tok.fp {
                        Some(d) => {
                            assert(is_digit_char(d[0]));
                            if d.len() > 1 {
                                assert(is_digit_char(d[1]));
                            }
                            assert(0 <= frac_cents(d) <= 99);
                        },
                        None => {},
                    }
                }
                let m: u64 = nx.val * 100 + f;
                if m > (MAX_CENTS as u64) {
                    None
                } else if nx.neg {
                    Some(-(m as i64))
                } else {
                    Some(m as i64)
                }
            }
        },
    }
}

/// Takes one read record pair into the executable accumulator.
fn absorb_rec_x(acc: RecAccX, key: &String, x: ScalarX, Ghost(v): Ghost<Scalar>) -> (r: RecAccX)
    requires
        scalar_matches(x, v),
    ensures
        acc_v(r) == absorb_rec(acc_v(acc), key@, v),
{
    if str_eq(key.as_str(), "beds") {
        RecAccX { beds: sc_as_i8(&x, Ghost(v)), ..acc }
    } else if str_eq(key.as_str(), "baths") {
        RecAccX { baths: sc_as_i8(&x, Ghost(v)), ..acc }
    } else if str_eq(key.as_str(), "deposit") {
        RecAccX { deposit: sc_as_money(&x, Ghost(v)), ..acc }
    } else if str_eq(key.as_str(), "petdeposit") {
        RecAccX { pet_deposit: sc_as_money(&x, Ghost(v)), ..acc }
    } else if str_eq(key.as_str(), "petmonthly") {
        RecAccX { pet_monthly: sc_as_money(&x, Ghost(v)), ..acc }
    } else if str_eq(key.as_str(), "parkingmonthly") {
        RecAccX { parking_monthly: sc_as_money(&x, Ghost(v)), ..acc }
    } else if str_eq(key.as_str(), "monthlyrent") {
        RecAccX { monthly_rent: sc_as_money(&x, Ghost(v)), ..acc }
    } else if str_eq(key.as_str(), "link") {
        match x {
            ScalarX::S(st) => RecAccX { link: Some(st), ..acc },
            ScalarX::N(_) => RecAccX { link: None, ..acc },
        }
    } else {
        acc
    }
}

/// Whether a record provided every required key.
pub open spec fn rec_complete(rec: RecAcc) -> bool {
    &&& rec.beds is Some
    &&& rec.baths is Some
    &&& rec.deposit is Some
    &&& rec.pet_deposit is Some
    &&& rec.pet_monthly is Some
    &&& rec.parking_monthly is Some
    &&& rec.monthly_rent is Some
    &&& rec.link is Some
}

} // verus!
