//! The subdomain of a host name.

use crate::text::{
    all_digits, chars_of, decimal, digit_char, digits_value, is_digit, join_first, join_with,
    law_split_after_join, lemma_decimal_digits, lemma_split_prepend, lemma_split_single,
    parse_unsigned, split_on, split_string, str_eq, views,
};
use vstd::prelude::*;

verus! {

/// The host without its port: what stands before the first colon.
pub open spec fn host_without_port(host: Seq<char>) -> Seq<char> {
    split_on(host, ':')[0]
}

/// One part of a dotted address: a decimal number up to 255 without leading zeros.
pub open spec fn is_octet(s: Seq<char>) -> bool {
    &&& 1 <= s.len() <= 3
    &&& all_digits(s)
    &&& digits_value(s) <= 255
    &&& s.len() == 1 || s[0] != '0'
}

/// The text is an address in dotted decimal form. A host without a colon can be no other
/// kind of address.
pub open spec fn is_dotted_address(s: Seq<char>) -> bool {
    let parts = split_on(s, '.');
    parts.len() == 4 && forall|i: int| 0 <= i < 4 ==> is_octet(#[trigger] parts[i])
}

/// The host names no domain: it is `localhost` or an address.
pub open spec fn is_local_or_address(s: Seq<char>) -> bool {
    s == "localhost"@ || is_dotted_address(s)
}

/// The subdomain of a host, where its domain has `base` parts.
pub open spec fn subdomain_of(host: Seq<char>, base: nat) -> Option<Seq<char>> {
    let name = host_without_port(host);
    let parts = split_on(name, '.');
    if is_local_or_address(name) || parts.len() <= base {
        None
    } else {
        Some(join_with(parts.take(parts.len() - base), "."@))
    }
}

fn check_octet(s: &str) -> (r: bool)
    ensures
        r == is_octet(s@),
{
    let v = chars_of(s);
    if v.len() == 0 || v.len() > 3 {
        return false;
    }
    if v.len() > 1 && v[0] == '0' {
        return false;
    }
    let mut n: u32 = 0;
    let mut i: usize = 0;
    proof {
        assert(v@.take(0) =~= Seq::empty());
    }
    while i < v.len()
        invariant
            i <= v@.len() <= 3,
            v@ == s@,
            forall|j: int| 0 <= j < i ==> is_digit(#[trigger] v@[j]),
            n == digits_value(v@.take(i as int)),
            i == 0 ==> n == 0,
            i == 1 ==> n < 10,
            i == 2 ==> n < 100,
            i == 3 ==> n < 1000,
        decreases v@.len() - i,
    {
        let c: char = v[i];
        if !('0' <= c && c <= '9') {
            proof {
                assert(!is_digit(v@[i as int]));
            }
            return false;
        }
        proof {
            assert(v@.take(i + 1).drop_last() =~= v@.take(i as int));
        }
        n = n * 10 + (c as u32 - '0' as u32);
        i = i + 1;
    }
    proof {
        assert(v@.take(v@.len() as int) =~= v@);
    }
    n <= 255
}

/// Whether the text is an address in dotted decimal form.
pub fn is_address(s: &str) -> (r: bool)
    ensures
        r == is_dotted_address(s@),
{
    let parts = split_string(s, '.');
    let ghost p = views(parts@);
    if parts.len() != 4 {
        return false;
    }
    let mut i: usize = 0;
    while i < 4
        invariant
            i <= 4,
            parts@.len() == 4,
            p == views(parts@),
            p == split_on(s@, '.'),
            forall|j: int| 0 <= j < i ==> is_octet(#[trigger] p[j]),
        decreases 4 - i,
    {
        if !check_octet(parts[i].as_str()) {
            proof {
                assert(!is_octet(p[i as int]));
            }
            return false;
        }
        i = i + 1;
    }
    true
}

/// The subdomain of a host, where its domain has `base_domain_parts` parts. A port is left
/// out; `localhost` and addresses have no subdomain.
pub fn extract_subdomain(host: &str, base_domain_parts: usize) -> (r: Option<String>)
    ensures
        match r {
            Some(s) => subdomain_of(host@, base_domain_parts as nat) == Some(s@),
            None => subdomain_of(host@, base_domain_parts as nat) is None,
        },
{
    let pieces = split_string(host, ':');
    let name = pieces[0].as_str();
    proof {
        assert(views(pieces@)[0] == name@);
    }
    if str_eq(name, "localhost") || is_address(name) {
        return None;
    }
    let parts = split_string(name, '.');
    if parts.len() <= base_domain_parts {
        return None;
    }
    Some(join_first(&parts, parts.len() - base_domain_parts, "."))
}

/// A host that has a subdomain is the subdomain, a dot, and the last parts of the host.
pub proof fn law_subdomain_is_a_prefix(host: Seq<char>, base: nat)
    requires
        base > 0,
        subdomain_of(host, base) is Some,
    ensures
        ({
            let name = host_without_port(host);
            let parts = split_on(name, '.');
            name == subdomain_of(host, base)->0 + "."@ + join_with(
                parts.skip(parts.len() - base),
                "."@,
            )
        }),
{
    let name = host_without_port(host);
    let parts = split_on(name, '.');
    reveal_strlit(".");
    assert("."@ =~= seq!['.']);
    crate::text::law_join_after_split(name, '.');
    lemma_join_split_at(parts, "."@, parts.len() - base);
}

/// Joining is joining the first part and the rest.
pub proof fn lemma_join_split_at(parts: Seq<Seq<char>>, sep: Seq<char>, n: int)
    requires
        0 < n < parts.len(),
    ensures
        join_with(parts, sep) == join_with(parts.take(n), sep) + sep + join_with(
            parts.skip(n),
            sep,
        ),
    decreases parts.len(),
{
    if n == parts.len() - 1 {
        assert(parts.take(n) =~= parts.drop_last());
        assert(parts.skip(n) =~= seq![parts.last()]);
    } else {
        lemma_join_split_at(parts.drop_last(), sep, n);
        assert(parts.drop_last().take(n) =~= parts.take(n));
        assert(parts.drop_last().skip(n) =~= parts.skip(n).drop_last());
        let a = join_with(parts.take(n), sep);
        let b = join_with(parts.skip(n).drop_last(), sep);
        assert(a + sep + b + sep + parts.last() =~= a + sep + (b + sep + parts.last()));
    }
}

/// A host that is no address has a subdomain exactly when it has more parts than the domain: the
/// parts before those of the domain, with points between them. A port makes no difference, and
/// `localhost` has none.
pub proof fn law_subdomain_stands_before_the_domain(
    labels: Seq<Seq<char>>,
    domain: Seq<Seq<char>>,
    port: Seq<char>,
)
    requires
        domain.len() > 0,
        forall|i: int|
            0 <= i < labels.len() ==> !(#[trigger] labels[i]).contains('.') && !labels[i].contains(':'),
        forall|i: int|
            0 <= i < domain.len() ==> !(#[trigger] domain[i]).contains('.') && !domain[i].contains(':'),
        !is_dotted_address(join_with(labels + domain, seq!['.'])),
        join_with(labels + domain, seq!['.']) != "localhost"@,
    ensures
        subdomain_of(join_with(labels + domain, seq!['.']), domain.len()) == if labels.len() > 0 {
            Some(join_with(labels, seq!['.']))
        } else {
            None
        },
        subdomain_of(join_with(labels + domain, seq!['.']) + seq![':'] + port, domain.len())
            == subdomain_of(join_with(labels + domain, seq!['.']), domain.len()),
        subdomain_of("localhost"@, domain.len()) is None,
{
    reveal_strlit(".");
    reveal_strlit("localhost");
    assert("."@ =~= seq!['.']);
    let parts = labels + domain;
    let host = join_with(parts, seq!['.']);
    assert forall|i: int| 0 <= i < parts.len() implies !(#[trigger] parts[i]).contains('.')
        && !parts[i].contains(':') by {
        if i < labels.len() {
            assert(parts[i] == labels[i]);
        } else {
            assert(parts[i] == domain[i - labels.len()]);
        }
    }
    law_split_after_join(parts, '.');
    lemma_join_without(parts, '.', ':');
    lemma_split_single(host, ':');
    assert(parts.take(parts.len() - domain.len()) =~= labels);
    lemma_split_prepend(host, ':', port);
    assert(host + seq![':'] + port =~= host.push(':') + port);
    assert((seq![host] + split_on(port, ':'))[0] == host);
    lemma_split_single("localhost"@, ':');
}

/// Pieces without a character, joined by another, make a text without it.
proof fn lemma_join_without(parts: Seq<Seq<char>>, sep: char, c: char)
    requires
        c != sep,
        forall|i: int| 0 <= i < parts.len() ==> !(#[trigger] parts[i]).contains(c),
    ensures
        !join_with(parts, seq![sep]).contains(c),
    decreases parts.len(),
{
    if parts.len() > 1 {
        let init = parts.drop_last();
        assert forall|i: int| 0 <= i < init.len() implies !(#[trigger] init[i]).contains(c) by {
            assert(init[i] == parts[i]);
        }
        lemma_join_without(init, sep, c);
        let a = join_with(init, seq![sep]);
        let b = parts.last();
        assert(!parts[parts.len() - 1].contains(c));
        let s = a + seq![sep] + b;
        assert forall|i: int| 0 <= i < s.len() implies s[i] != c by {
            if i < a.len() {
                assert(a.contains(a[i]));
            } else if i > a.len() {
                assert(b.contains(b[i - a.len() - 1]));
            }
        }
    } else if parts.len() == 1 {
        assert(!parts[0].contains(c));
    }
}

proof fn lemma_decimal_octet(n: nat)
    requires
        n <= 255,
    ensures
        is_octet(decimal(n)),
{
    lemma_decimal_digits(n);
    if n >= 100 {
        let tens = n / 10;
        assert(decimal(n) == decimal(tens).push(digit_char(n % 10)));
        assert(decimal(tens) == decimal(tens / 10).push(digit_char(tens % 10)));
        assert(decimal(tens / 10) == seq![digit_char(tens / 10)]);
        assert(tens / 10 >= 1);
        assert(decimal(n)[0] == digit_char(tens / 10));
    } else if n >= 10 {
        assert(decimal(n) == decimal(n / 10).push(digit_char(n % 10)));
        assert(decimal(n / 10) == seq![digit_char(n / 10)]);
        assert(n / 10 >= 1);
        assert(decimal(n)[0] == digit_char(n / 10));
    }
}

/// Four numbers up to 255 with points between them are an address, and so are never a domain with a
/// subdomain; anything with more or fewer parts, or with a part that is no such number, is no address.
pub proof fn law_addresses_are_four_numbers(a: u8, b: u8, c: u8, d: u8, base: nat, s: Seq<char>)
    ensures
        ({
            let parts = seq![
                decimal(a as nat),
                decimal(b as nat),
                decimal(c as nat),
                decimal(d as nat),
            ];
            is_dotted_address(join_with(parts, seq!['.'])) && subdomain_of(
                join_with(parts, seq!['.']),
                base,
            ) is None
        }),
        is_dotted_address(s) ==> split_on(s, '.').len() == 4 && forall|i: int|
            0 <= i < 4 ==> parse_unsigned(#[trigger] split_on(s, '.')[i], 255) is Some,
{
    let parts = seq![decimal(a as nat), decimal(b as nat), decimal(c as nat), decimal(d as nat)];
    lemma_decimal_octet(a as nat);
    lemma_decimal_octet(b as nat);
    lemma_decimal_octet(c as nat);
    lemma_decimal_octet(d as nat);
    assert forall|i: int| 0 <= i < parts.len() implies !(#[trigger] parts[i]).contains('.')
        && !parts[i].contains(':') && is_octet(parts[i]) by {
        assert(i == 0 || i == 1 || i == 2 || i == 3);
        assert forall|k: int| 0 <= k < parts[i].len() implies parts[i][k] != '.' && parts[i][k]
            != ':' by {
            assert(is_digit(parts[i][k]));
        }
    }
    law_split_after_join(parts, '.');
    lemma_join_without(parts, '.', ':');
    lemma_split_single(join_with(parts, seq!['.']), ':');
    if is_dotted_address(s) {
        assert forall|i: int| 0 <= i < 4 implies parse_unsigned(
            #[trigger] split_on(s, '.')[i],
            255,
        ) is Some by {
            assert(is_octet(split_on(s, '.')[i]));
            assert(is_digit(split_on(s, '.')[i][0]));
        }
    }
}

} // verus!
