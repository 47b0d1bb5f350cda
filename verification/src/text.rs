//! Small text conversions taken from `std`.

use vstd::prelude::*;

verus! {

/// The decimal digit `d` as a character.
pub open spec fn digit_char(d: int) -> char {
    (d + 48) as char
}

/// The decimal digits of `n`, without leading zeros.
pub open spec fn digits(n: nat) -> Seq<char>
    decreases n,
{
    if n < 10 {
        seq![digit_char(n as int)]
    } else {
        digits(n / 10).push(digit_char((n % 10) as int))
    }
}

/// The decimal text of `n`, with a leading `-` when it is negative.
pub open spec fn decimal_text(n: int) -> Seq<char> {
    if n < 0 {
        seq!['-'] + digits((-n) as nat)
    } else {
        digits(n as nat)
    }
}

/// Writes an integer with `i64`'s `Display` (`ToString::to_string`).
/// Claimed: its decimal text, with a `-` before a negative number.
#[verifier::external_body]
pub(crate) fn decimal_i64(n: i64) -> (r: String)
    ensures
        r@ == decimal_text(n as int),
{
    n.to_string()
}

/// `s` with every `c` replaced by `to`.
pub open spec fn replaced(s: Seq<char>, c: char, to: Seq<char>) -> Seq<char>
    decreases s.len(),
{
    if s.len() == 0 {
        Seq::empty()
    } else {
        replaced(s.drop_last(), c, to) + if s.last() == c {
            to
        } else {
            seq![s.last()]
        }
    }
}

/// Replaces every `c` of `s` with `to` using `str::replace` with a `char`
/// pattern. Claimed: each `c`, and nothing else, is replaced by `to`.
#[verifier::external_body]
pub(crate) fn replace_char(s: &str, c: char, to: &str) -> (r: String)
    ensures
        r@ == replaced(s@, c, to@),
{
    s.replace(c, to)
}

/// What a comma of a title becomes in a CSV field: ` ЗПТ`.
pub open spec fn comma_replacement() -> Seq<char> {
    seq![' ', '\u{0417}', '\u{041f}', '\u{0422}']
}

/// `s` with every comma replaced.
pub open spec fn comma_escaped(s: Seq<char>) -> Seq<char> {
    replaced(s, ',', comma_replacement())
}

/// `s` with every comma replaced by ` ЗПТ`, so that it fits in one CSV
/// field.
pub fn escape_commas(s: &str) -> (r: String)
    ensures
        r@ == comma_escaped(s@),
{
    let to = " \u{0417}\u{041f}\u{0422}";
    proof {
        reveal_strlit(" \u{0417}\u{041f}\u{0422}");
        assert(to@ =~= comma_replacement());
    }
    replace_char(s, ',', to)
}

/// `a` followed by `b`.
pub fn concat(a: &str, b: &str) -> (r: String)
    ensures
        r@ == a@ + b@,
{
    let mut r = String::from_str(a);
    r.append(b);
    r
}

/// Texts separated by commas.
pub open spec fn comma_joined(parts: Seq<Seq<char>>) -> Seq<char>
    decreases parts.len(),
{
    if parts.len() == 0 {
        Seq::empty()
    } else if parts.len() == 1 {
        parts[0]
    } else {
        comma_joined(parts.drop_last()) + seq![','] + parts.last()
    }
}

/// The texts of `parts` separated by commas.
pub fn join_with_commas(parts: &Vec<String>) -> (r: String)
    ensures
        r@ == comma_joined(parts@.map_values(|s: String| s@)),
{
    let ghost views = parts@.map_values(|s: String| s@);
    let mut r = String::new();
    let mut i: usize = 0;
    while i < parts.len()
        invariant
            i <= parts@.len(),
            views == parts@.map_values(|s: String| s@),
            r@ == comma_joined(views.take(i as int)),
        decreases parts.len() - i,
    {
        proof {
            assert(views.take(i + 1).drop_last() =~= views.take(i as int));
            assert(views.take(i + 1).last() == parts@[i as int]@);
            if i == 0 {
                assert(views.take(0) =~= Seq::<Seq<char>>::empty());
                assert(views.take(1).len() == 1);
            }
        }
        if i > 0 {
            r.append(",");
            proof {
                reveal_strlit(",");
            }
        }
        r.append(parts[i].as_str());
        i += 1;
    }
    assert(views.take(parts@.len() as int) =~= views);
    r
}

/// No comma occurs in `s`.
pub open spec fn comma_free(s: Seq<char>) -> bool {
    forall|i: int| 0 <= i < s.len() ==> s[i] != ','
}

/// How many commas `s` holds.
pub open spec fn comma_count(s: Seq<char>) -> nat
    decreases s.len(),
{
    if s.len() == 0 {
        0
    } else {
        comma_count(s.drop_last()) + if s.last() == ',' {
            1nat
        } else {
            0nat
        }
    }
}

/// The commas of two texts put together are those of each.
pub proof fn lemma_comma_count_concat(a: Seq<char>, b: Seq<char>)
    ensures
        comma_count(a + b) == comma_count(a) + comma_count(b),
    decreases b.len(),
{
    if b.len() == 0 {
        assert(a + b =~= a);
    } else {
        lemma_comma_count_concat(a, b.drop_last());
        assert((a + b).drop_last() =~= a + b.drop_last());
    }
}

/// A text without commas counts none.
pub proof fn lemma_comma_free_count(s: Seq<char>)
    requires
        comma_free(s),
    ensures
        comma_count(s) == 0,
    decreases s.len(),
{
    if s.len() > 0 {
        assert(s[s.len() - 1] != ',');
        lemma_comma_free_count(s.drop_last());
    }
}

/// Texts without commas joined by commas hold one comma fewer than there
/// are texts.
pub proof fn lemma_joined_comma_count(parts: Seq<Seq<char>>)
    requires
        parts.len() >= 1,
        forall|i: int| 0 <= i < parts.len() ==> comma_free(#[trigger] parts[i]),
    ensures
        comma_count(comma_joined(parts)) == parts.len() - 1,
    decreases parts.len(),
{
    if parts.len() == 1 {
        lemma_comma_free_count(parts[0]);
    } else {
        let init = parts.drop_last();
        assert forall|i: int| 0 <= i < init.len() implies comma_free(#[trigger] init[i]) by {
            assert(init[i] == parts[i]);
        }
        lemma_joined_comma_count(init);
        lemma_comma_count_concat(comma_joined(init), seq![',']);
        lemma_comma_count_concat(comma_joined(init) + seq![','], parts.last());
        assert(parts.last() == parts[parts.len() - 1]);
        lemma_comma_free_count(parts.last());
        assert(seq![','].drop_last() =~= Seq::<char>::empty());
        assert(comma_count(Seq::<char>::empty()) == 0);
        assert(comma_count(seq![',']) == 1);
        assert(comma_joined(parts) == comma_joined(init) + seq![','] + parts.last());
    }
}

/// Decimal digits hold no comma.
pub proof fn lemma_digits_comma_free(n: nat)
    ensures
        comma_free(digits(n)),
    decreases n,
{
    if n >= 10 {
        lemma_digits_comma_free(n / 10);
        let d = (n % 10) as int;
        assert(digit_char(d) != ',');
    } else {
        assert(digit_char(n as int) != ',');
    }
}

/// The decimal text of a number holds no comma.
pub proof fn lemma_decimal_comma_free(n: int)
    ensures
        comma_free(decimal_text(n)),
{
    if n < 0 {
        lemma_digits_comma_free((-n) as nat);
        let d = digits((-n) as nat);
        assert forall|i: int| 0 <= i < (seq!['-'] + d).len() implies (seq!['-'] + d)[i] != ',' by {
            if i > 0 {
                assert((seq!['-'] + d)[i] == d[i - 1]);
            }
        }
    } else {
        lemma_digits_comma_free(n as nat);
    }
}

/// Replacing every comma by a text without commas leaves none.
pub proof fn lemma_replaced_comma_free(s: Seq<char>, to: Seq<char>)
    requires
        comma_free(to),
    ensures
        comma_free(replaced(s, ',', to)),
    decreases s.len(),
{
    if s.len() > 0 {
        lemma_replaced_comma_free(s.drop_last(), to);
        let a = replaced(s.drop_last(), ',', to);
        let b = if s.last() == ',' {
            to
        } else {
            seq![s.last()]
        };
        assert forall|i: int| 0 <= i < (a + b).len() implies (a + b)[i] != ',' by {
            if i >= a.len() {
                assert((a + b)[i] == b[i - a.len()]);
            }
        }
    }
}

/// A title with its commas escaped holds no comma.
pub proof fn law_escaped_text_comma_free(s: Seq<char>)
    ensures
        comma_free(comma_escaped(s)),
{
    lemma_replaced_comma_free(s, comma_replacement());
}

} // verus!
