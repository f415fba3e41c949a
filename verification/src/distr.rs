use vstd::prelude::*;
use crate::error::ChumError;

verus! {

/// The two separator classes of the compact weighted-list syntax: commas
/// separate entries; a colon or an `x` separates a value from its count.
pub open spec fn is_sep(c: char, mult: bool) -> bool {
    if mult {
        c == ':' || c == 'x'
    } else {
        c == ','
    }
}

/// Splitting a character sequence on a separator class, from the left.
/// Splitting the empty sequence yields one empty token, as Rust's `split`
/// does.
pub open spec fn split_spec(s: Seq<char>, mult: bool) -> Seq<Seq<char>>
    decreases s.len(),
{
    if s.len() == 0 {
        seq![Seq::<char>::empty()]
    } else if is_sep(s[0], mult) {
        seq![Seq::<char>::empty()] + split_spec(s.drop_first(), mult)
    } else {
        let rest = split_spec(s.drop_first(), mult);
        seq![seq![s[0]] + rest[0]] + rest.drop_first()
    }
}

pub proof fn lemma_split_len(s: Seq<char>, mult: bool)
    ensures
        split_spec(s, mult).len() >= 1,
    decreases s.len(),
{
    if s.len() > 0 {
        lemma_split_len(s.drop_first(), mult);
    }
}

/// A sequence without separators splits into the single token that is the
/// sequence itself.
pub proof fn lemma_split_no_sep(s: Seq<char>, mult: bool)
    requires
        forall|i: int| 0 <= i < s.len() ==> !is_sep(s[i], mult),
    ensures
        split_spec(s, mult) == seq![s],
    decreases s.len(),
{
    if s.len() == 0 {
        assert(s =~= Seq::<char>::empty());
    } else {
        lemma_split_no_sep(s.drop_first(), mult);
        let rest = split_spec(s.drop_first(), mult);
        assert(rest == seq![s.drop_first()]);
        assert(seq![s[0]] + rest[0] =~= s);
        assert(rest.drop_first() =~= Seq::<Seq<char>>::empty());
        assert(split_spec(s, mult) =~= seq![s]);
    }
}

/// If the first separator stands at position `j`, the first token is the
/// prefix before it and the rest is the split of what follows it.
pub proof fn lemma_split_first_sep(s: Seq<char>, mult: bool, j: int)
    requires
        0 <= j < s.len(),
        is_sep(s[j], mult),
        forall|i: int| 0 <= i < j ==> !is_sep(s[i], mult),
    ensures
        split_spec(s, mult) == seq![s.take(j)] + split_spec(s.skip(j + 1), mult),
    decreases j,
{
    if j == 0 {
        assert(s.take(0) =~= Seq::<char>::empty());
        assert(s.skip(1) =~= s.drop_first());
        assert(split_spec(s, mult) =~= seq![s.take(0)] + split_spec(s.skip(1), mult));
    } else {
        let t = s.drop_first();
        assert(t[j - 1] == s[j]);
        assert(forall|i: int| 0 <= i < j - 1 ==> t[i] == s[i + 1] && !is_sep(t[i], mult));
        lemma_split_first_sep(t, mult, j - 1);
        let rest = split_spec(t, mult);
        assert(rest == seq![t.take(j - 1)] + split_spec(t.skip(j), mult));
        lemma_split_len(t.skip(j), mult);
        assert(rest[0] == t.take(j - 1));
        assert(seq![s[0]] + rest[0] =~= s.take(j));
        assert(rest.drop_first() =~= split_spec(t.skip(j), mult));
        assert(t.skip(j) =~= s.skip(j + 1));
        assert(split_spec(s, mult) =~= seq![s.take(j)] + split_spec(s.skip(j + 1), mult));
    }
}

fn is_sep_exec(c: char, mult: bool) -> (r: bool)
    ensures
        r == is_sep(c, mult),
{
    if mult {
        c == ':' || c == 'x'
    } else {
        c == ','
    }
}

/// Split `s` on the given separator class; the returned tokens, in order,
/// are exactly those of `split_spec`.
pub fn split_str(s: &str, mult: bool) -> (r: Vec<String>)
    ensures
        r.deep_view() == split_spec(s@, mult),
        r@.len() >= 1,
{
    let n = s.unicode_len();
    let mut out: Vec<String> = Vec::new();
    let mut start: usize = 0;
    let mut i: usize = 0;
    proof {
        assert(s@.skip(0) =~= s@);
    }
    while i < n
        invariant
            start <= i <= n,
            n == s@.len(),
            forall|k: int| start <= k < i ==> !is_sep(s@[k], mult),
            split_spec(s@, mult) == out.deep_view() + split_spec(s@.skip(start as int), mult),
        decreases n - i,
    {
        let c = s.get_char(i);
        if is_sep_exec(c, mult) {
            let tok = s.substring_char(start, i).to_owned();
            proof {
                let rem = s@.skip(start as int);
                let j = i - start;
                assert(rem[j] == s@[i as int]);
                assert(forall|k: int| 0 <= k < j ==> rem[k] == s@[k + start] && !is_sep(
                    rem[k],
                    mult,
                ));
                lemma_split_first_sep(rem, mult, j);
                assert(rem.take(j) =~= s@.subrange(start as int, i as int));
                assert(rem.skip(j + 1) =~= s@.skip(i + 1));
                assert(out.deep_view().push(tok@) =~= out.deep_view() + seq![rem.take(j)]);
            }
            let ghost old_out = out.deep_view();
            out.push(tok);
            proof {
                assert(out.deep_view() =~= old_out.push(s@.subrange(start as int, i as int)));
                assert(out.deep_view() + split_spec(s@.skip(i + 1), mult) =~= (old_out + seq![
                    s@.subrange(start as int, i as int),
                ]) + split_spec(s@.skip(i + 1), mult));
            }
            start = i + 1;
        }
        i += 1;
    }
    let tok = s.substring_char(start, n).to_owned();
    proof {
        let rem = s@.skip(start as int);
        lemma_split_no_sep(rem, mult);
        assert(rem =~= s@.subrange(start as int, n as int));
    }
    let ghost old_out = out.deep_view();
    out.push(tok);
    proof {
        assert(out.deep_view() =~= old_out.push(s@.subrange(start as int, n as int)));
        assert(old_out.push(s@.subrange(start as int, n as int)) =~= old_out + seq![
            s@.skip(start as int),
        ]);
        assert(out.deep_view() =~= split_spec(s@, mult));
    }
    out
}

pub open spec fn is_digit(c: char) -> bool {
    48 <= c as u32 <= 57
}

pub open spec fn digit_val(c: char) -> int {
    c as u32 - 48
}

pub open spec fn all_digits(s: Seq<char>) -> bool {
    forall|i: int| 0 <= i < s.len() ==> is_digit(#[trigger] s[i])
}

/// The numeric value of a decimal digit string.
pub open spec fn dec_value(s: Seq<char>) -> int
    decreases s.len(),
{
    if s.len() == 0 {
        0
    } else {
        dec_value(s.drop_last()) * 10 + digit_val(s.last())
    }
}

/// A well-formed decimal number that a 64-bit unsigned integer can hold.
pub open spec fn is_dec(s: Seq<char>) -> bool {
    s.len() >= 1 && all_digits(s) && dec_value(s) <= u64::MAX
}

pub proof fn lemma_dec_nonneg(s: Seq<char>)
    requires
        all_digits(s),
    ensures
        dec_value(s) >= 0,
    decreases s.len(),
{
    if s.len() > 0 {
        lemma_dec_nonneg(s.drop_last());
    }
}

/// A digit string's value is no less than the value of any of its prefixes.
pub proof fn lemma_dec_prefix_le(s: Seq<char>, j: int)
    requires
        all_digits(s),
        0 <= j <= s.len(),
    ensures
        dec_value(s.take(j)) <= dec_value(s),
    decreases s.len() - j,
{
    if j == s.len() {
        assert(s.take(j) =~= s);
    } else {
        assert(s.take(j + 1).drop_last() =~= s.take(j));
        assert(all_digits(s.take(j)));
        lemma_dec_nonneg(s.take(j));
        assert(dec_value(s.take(j + 1)) == dec_value(s.take(j)) * 10 + digit_val(s[j]));
        lemma_dec_prefix_le(s, j + 1);
    }
}

proof fn lemma_le_div_implies_mul_le(v: int, b: int, m: int)
    requires
        0 <= v,
        0 < m,
        0 <= b,
        v <= b / m,
    ensures
        v * m <= b,
{
    vstd::arithmetic::div_mod::lemma_fundamental_div_mod(b, m);
    vstd::arithmetic::div_mod::lemma_mod_bound(b, m);
    vstd::arithmetic::mul::lemma_mul_inequality(v, b / m, m);
    vstd::arithmetic::mul::lemma_mul_is_commutative(b / m, m);
}

/// Parse a decimal digit string into a 64-bit unsigned integer. `None`
/// exactly when the string is empty, holds a non-digit, or exceeds what
/// the integer can hold.
pub fn parse_dec(s: &str) -> (r: Option<u64>)
    ensures
        r is Some <==> is_dec(s@),
        r matches Some(v) ==> v == dec_value(s@),
{
    let n = s.unicode_len();
    if n == 0 {
        return None;
    }
    let mut acc: u64 = 0;
    let mut i: usize = 0;
    proof {
        assert(s@.take(0) =~= Seq::<char>::empty());
    }
    while i < n
        invariant
            i <= n,
            n == s@.len(),
            n >= 1,
            all_digits(s@.take(i as int)),
            acc == dec_value(s@.take(i as int)),
        decreases n - i,
    {
        let c = s.get_char(i);
        let u = c as u32;
        if u < 48 || u > 57 {
            proof {
                assert(!is_digit(s@[i as int]));
            }
            return None;
        }
        let d: u64 = (u - 48) as u64;
        if acc > (u64::MAX - d) / 10 {
            proof {
                assert(s@.take(i + 1).drop_last() =~= s@.take(i as int));
                lemma_dec_nonneg(s@.take(i as int));
                lemma_le_div_implies_mul_le(
                    (u64::MAX - d) / 10 + 1,
                    u64::MAX - d + 10,
                    10,
                );
                assert(dec_value(s@.take(i + 1)) > u64::MAX);
                if all_digits(s@) {
                    lemma_dec_prefix_le(s@, i + 1);
                }
            }
            return None;
        }
        proof {
            lemma_le_div_implies_mul_le(acc as int, u64::MAX - d, 10);
            assert(s@.take(i + 1).drop_last() =~= s@.take(i as int));
        }
        acc = acc * 10 + d;
        i += 1;
    }
    proof {
        assert(s@.take(n as int) =~= s@);
    }
    Some(acc)
}

/// The byte multiplier that a size suffix stands for; zero marks a
/// character that is no recognized suffix.
pub open spec fn mult_of(c: char) -> int {
    if c == 'k' || c == 'K' {
        1024
    } else if c == 'm' || c == 'M' {
        1048576
    } else if c == 'g' || c == 'G' {
        1073741824
    } else if c == 't' || c == 'T' {
        1099511627776
    } else {
        0
    }
}

/// A human-readable size: a decimal number, optionally followed by one
/// size suffix, whose value fits a 64-bit unsigned integer.
pub open spec fn human_ok(s: Seq<char>) -> bool {
    if s.len() == 0 {
        false
    } else if is_digit(s.last()) {
        is_dec(s)
    } else {
        mult_of(s.last()) > 0 && is_dec(s.drop_last()) && dec_value(s.drop_last()) * mult_of(
            s.last(),
        ) <= u64::MAX
    }
}

pub open spec fn human_value(s: Seq<char>) -> int {
    if s.len() > 0 && is_digit(s.last()) {
        dec_value(s)
    } else {
        dec_value(s.drop_last()) * mult_of(s.last())
    }
}

/// Parse a human-readable byte count such as `128`, `128k` or `2G`.
pub fn parse_human(s: &str) -> (r: Result<u64, ChumError>)
    ensures
        r is Ok <==> human_ok(s@),
        r matches Ok(v) ==> v == human_value(s@),
{
    let n = s.unicode_len();
    if n == 0 {
        return Err(ChumError::new("empty size value"));
    }
    let last = s.get_char(n - 1);
    let u = last as u32;
    if 48 <= u && u <= 57 {
        match parse_dec(s) {
            Some(v) => Ok(v),
            None => Err(ChumError::new("malformed numeric value")),
        }
    } else {
        let mult: u64 = if last == 'k' || last == 'K' {
            1024
        } else if last == 'm' || last == 'M' {
            1048576
        } else if last == 'g' || last == 'G' {
            1073741824
        } else if last == 't' || last == 'T' {
            1099511627776
        } else {
            return Err(ChumError::new("unrecognized size suffix"));
        };
        let pre = s.substring_char(0, n - 1);
        proof {
            assert(pre@ =~= s@.drop_last());
        }
        match parse_dec(pre) {
            None => Err(ChumError::new("malformed numeric value")),
            Some(v) => {
                if v > u64::MAX / mult {
                    proof {
                        lemma_dec_nonneg(s@.drop_last());
                        lemma_le_div_implies_mul_le(
                            u64::MAX as int / mult as int + 1,
                            u64::MAX + mult,
                            mult as int,
                        );
                    }
                    Err(ChumError::new("size value too large"))
                } else {
                    proof {
                        lemma_le_div_implies_mul_le(v as int, u64::MAX as int, mult as int);
                    }
                    Ok(v * mult)
                }
            },
        }
    }
}

/// The parts of one spec entry: the value, and possibly a count.
pub open spec fn entry_parts(e: Seq<char>) -> Seq<Seq<char>> {
    split_spec(e, true)
}

/// An entry whose count, where it has one, is a well-formed number.
pub open spec fn entry_count_ok(e: Seq<char>) -> bool {
    entry_parts(e).len() == 2 ==> is_dec(entry_parts(e)[1])
}

pub open spec fn spec_entries(s: Seq<char>) -> Seq<Seq<char>> {
    split_spec(s, false)
}

pub open spec fn all_counts_ok(entries: Seq<Seq<char>>) -> bool {
    forall|i: int| 0 <= i < entries.len() ==> entry_count_ok(#[trigger] entries[i])
}

/// What one entry contributes to the sampling pool: its value once, its
/// value repeated `count` times, or nothing where the entry is malformed
/// (more than two parts) and skipped.
pub open spec fn entry_pool(e: Seq<char>) -> Seq<Seq<char>> {
    let p = entry_parts(e);
    if p.len() == 1 {
        seq![p[0]]
    } else if p.len() == 2 {
        Seq::new(dec_value(p[1]) as nat, |k: int| p[0])
    } else {
        Seq::empty()
    }
}

/// The sampling pool of a whole spec: the entries' contributions, in order.
pub open spec fn pool_of(entries: Seq<Seq<char>>) -> Seq<Seq<char>>
    decreases entries.len(),
{
    if entries.len() == 0 {
        Seq::empty()
    } else {
        pool_of(entries.drop_last()) + entry_pool(entries.last())
    }
}

/// The malformed entries that were skipped with a warning, in order.
pub open spec fn skipped_of(entries: Seq<Seq<char>>) -> Seq<Seq<char>>
    decreases entries.len(),
{
    if entries.len() == 0 {
        Seq::empty()
    } else {
        skipped_of(entries.drop_last()) + (if entry_parts(entries.last()).len() > 2 {
            seq![entries.last()]
        } else {
            Seq::<Seq<char>>::empty()
        })
    }
}

/// Expand a compact weighted-list spec (`value`, `value:count`,
/// `valuexcount`, comma-separated) into the flat sampling pool where
/// repetition encodes relative weight. An entry with more than two parts
/// is skipped and returned among the skipped entries, for the caller to
/// warn about; an entry whose count is not a well-formed number fails the
/// whole spec.
pub fn expand_distribution(s: &str) -> (r: Result<(Vec<String>, Vec<String>), ChumError>)
    ensures
        r is Ok <==> all_counts_ok(spec_entries(s@)),
        r matches Ok(p) ==> p.0.deep_view() == pool_of(spec_entries(s@)) && p.1.deep_view()
            == skipped_of(spec_entries(s@)),
{
    let entries = split_str(s, false);
    let ghost edv = entries.deep_view();
    let mut pool: Vec<String> = Vec::new();
    let mut skipped: Vec<String> = Vec::new();
    let mut i: usize = 0;
    proof {
        assert(edv.take(0) =~= Seq::<Seq<char>>::empty());
        assert(pool.deep_view() =~= pool_of(edv.take(0)));
        assert(skipped.deep_view() =~= skipped_of(edv.take(0)));
    }
    while i < entries.len()
        invariant
            i <= entries@.len(),
            edv == entries.deep_view(),
            edv == spec_entries(s@),
            forall|k: int| 0 <= k < i ==> entry_count_ok(#[trigger] edv[k]),
            pool.deep_view() == pool_of(edv.take(i as int)),
            skipped.deep_view() == skipped_of(edv.take(i as int)),
        decreases entries@.len() - i,
    {
        proof {
            assert(edv.take(i + 1).drop_last() =~= edv.take(i as int));
            assert(edv.take(i + 1).last() == edv[i as int]);
        }
        let mut parts = split_str(entries[i].as_str(), true);
        proof {
            assert(entries[i as int].deep_view() == edv[i as int]);
            assert(parts.deep_view() == entry_parts(edv[i as int]));
        }
        if parts.len() == 1 {
            let v = parts.remove(0);
            proof {
                assert(v@ == entry_parts(edv[i as int])[0]);
                assert(pool.deep_view().push(v@) =~= pool_of(edv.take(i as int)) + entry_pool(
                    edv[i as int],
                ));
            }
            let ghost before = pool.deep_view();
            pool.push(v);
            proof {
                assert(pool.deep_view() =~= before.push(entry_parts(edv[i as int])[0]));
            }
        } else if parts.len() == 2 {
            let count = parts.remove(1);
            let v = parts.remove(0);
            match parse_dec(count.as_str()) {
                None => {
                    let mut msg = "invalid count in distribution entry: ".to_owned();
                    msg.append(entries[i].as_str());
                    return Err(ChumError::from_string(msg));
                },
                Some(c) => {
                    proof {
                        lemma_dec_nonneg(count@);
                    }
                    let ghost before = pool.deep_view();
                    let ghost vv = v@;
                    let mut j: u64 = 0;
                    while j < c
                        invariant
                            j <= c,
                            vv == v@,
                            c == dec_value(count@) as u64,
                            pool.deep_view() == before + Seq::new(j as nat, |k: int| vv),
                        decreases c - j,
                    {
                        let ghost before_push = pool.deep_view();
                        pool.push(v.clone());
                        proof {
                            assert(pool.deep_view() =~= before_push.push(vv));
                            assert(before_push.push(vv) =~= before + Seq::new(
                                (j + 1) as nat,
                                |k: int| vv,
                            ));
                        }
                        j += 1;
                    }
                    proof {
                        assert(Seq::new(c as nat, |k: int| vv) =~= entry_pool(edv[i as int]));
                        assert(pool.deep_view() =~= pool_of(edv.take(i as int)) + entry_pool(
                            edv[i as int],
                        ));
                    }
                },
            }
        } else {
            let e = entries[i].clone();
            let ghost before = skipped.deep_view();
            skipped.push(e);
            proof {
                assert(skipped.deep_view() =~= before.push(edv[i as int]));
                assert(skipped.deep_view() =~= skipped_of(edv.take(i as int)) + seq![
                    edv[i as int],
                ]);
            }
        }
        proof {
            assert(pool_of(edv.take(i + 1)) == pool_of(edv.take(i as int)) + entry_pool(
                edv[i as int],
            ));
            assert(skipped_of(edv.take(i + 1)) == skipped_of(edv.take(i as int)) + (
            if entry_parts(edv[i as int]).len() > 2 {
                seq![edv[i as int]]
            } else {
                Seq::<Seq<char>>::empty()
            }));
            if entry_parts(edv[i as int]).len() <= 2 {
                assert(skipped_of(edv.take(i as int)) + Seq::<Seq<char>>::empty() =~= skipped_of(
                    edv.take(i as int),
                ));
            }
            if entry_parts(edv[i as int]).len() == 1 {
                assert(entry_pool(edv[i as int]) == seq![entry_parts(edv[i as int])[0]]);
            }
            if entry_parts(edv[i as int]).len() > 2 {
                assert(pool_of(edv.take(i as int)) + entry_pool(edv[i as int]) =~= pool_of(
                    edv.take(i as int),
                ));
            }
        }
        i += 1;
    }
    proof {
        assert(edv.take(entries@.len() as int) =~= edv);
    }
    Ok((pool, skipped))
}

/// The count an entry declares: one when unspecified, its count where it
/// has one, nothing where it is malformed and skipped.
pub open spec fn declared_count(e: Seq<char>) -> int {
    let p = entry_parts(e);
    if p.len() == 1 {
        1
    } else if p.len() == 2 {
        dec_value(p[1])
    } else {
        0
    }
}

pub open spec fn sum_counts(entries: Seq<Seq<char>>) -> int
    decreases entries.len(),
{
    if entries.len() == 0 {
        0
    } else {
        sum_counts(entries.drop_last()) + declared_count(entries.last())
    }
}

/// The value an entry declares.
pub open spec fn entry_value(e: Seq<char>) -> Seq<char> {
    entry_parts(e)[0]
}

/// Pool shape law: for a spec whose counts are well formed, the pool's
/// length is the sum of the declared counts (one where unspecified), and
/// every value in the pool is the declared value of some entry of the
/// spec.
pub proof fn lemma_pool_shape(entries: Seq<Seq<char>>)
    requires
        all_counts_ok(entries),
    ensures
        pool_of(entries).len() == sum_counts(entries),
        forall|k: int| 0 <= k < pool_of(entries).len() ==> exists|i: int|
            0 <= i < entries.len() && #[trigger] pool_of(entries)[k] == entry_value(entries[i]),
    decreases entries.len(),
{
    if entries.len() > 0 {
        let prefix = entries.drop_last();
        let last = entries.last();
        assert(all_counts_ok(prefix)) by {
            assert(forall|i: int| 0 <= i < prefix.len() ==> prefix[i] == entries[i]
                && entry_count_ok(#[trigger] prefix[i]));
        }
        lemma_pool_shape(prefix);
        let p = entry_parts(last);
        if p.len() == 2 {
            assert(entry_count_ok(entries[entries.len() - 1]));
            lemma_dec_nonneg(p[1]);
            assert(entry_pool(last).len() == declared_count(last));
        }
        assert(pool_of(entries).len() == sum_counts(entries));
        assert forall|k: int| 0 <= k < pool_of(entries).len() implies exists|i: int|
            0 <= i < entries.len() && #[trigger] pool_of(entries)[k] == entry_value(
            entries[i],
        ) by {
            let n = pool_of(prefix).len();
            if k < n {
                let i = choose|i: int|
                    0 <= i < prefix.len() && pool_of(prefix)[k] == entry_value(prefix[i]);
                assert(pool_of(entries)[k] == pool_of(prefix)[k]);
                assert(prefix[i] == entries[i]);
                assert(pool_of(entries)[k] == entry_value(entries[i]));
            } else {
                assert(pool_of(entries)[k] == entry_pool(last)[k - n]);
                assert(entry_pool(last)[k - n] == entry_value(last));
                assert(pool_of(entries)[k] == entry_value(entries[entries.len() - 1]));
            }
        }
    }
}

/// Convert each expanded token of a size distribution into its byte
/// count. The whole conversion fails exactly where some token is no
/// well-formed size.
pub fn convert_numeric_distribution(tokens: Vec<String>) -> (r: Result<Vec<u64>, ChumError>)
    ensures
        r is Ok <==> (forall|i: int| 0 <= i < tokens@.len() ==> human_ok(
            #[trigger] tokens.deep_view()[i],
        )),
        r matches Ok(v) ==> v@.len() == tokens@.len() && (forall|i: int|
            0 <= i < v@.len() ==> v@[i] == human_value(#[trigger] tokens.deep_view()[i])),
{
    let mut out: Vec<u64> = Vec::new();
    let mut i: usize = 0;
    while i < tokens.len()
        invariant
            i <= tokens@.len(),
            out@.len() == i,
            forall|k: int| 0 <= k < i ==> human_ok(#[trigger] tokens.deep_view()[k]),
            forall|k: int| 0 <= k < i ==> out@[k] == human_value(
                #[trigger] tokens.deep_view()[k],
            ),
        decreases tokens@.len() - i,
    {
        proof {
            assert(tokens[i as int]@ == tokens.deep_view()[i as int]);
        }
        match parse_human(tokens[i].as_str()) {
            Ok(v) => out.push(v),
            Err(e) => {
                return Err(e);
            },
        }
        i += 1;
    }
    Ok(out)
}

} // verus!
