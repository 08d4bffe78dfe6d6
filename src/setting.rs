//! Setting-strings (`key:value,key:value`) and the parameter merge.
use vstd::prelude::*;

verus! {

/// An entry as text: its key and its value.
pub type Entry = (Seq<char>, Seq<char>);

/// One `key:value` entry of a setting-string.
pub struct Param {
    pub key: String,
    pub value: String,
}

impl View for Param {
    type V = Entry;

    open spec fn view(&self) -> Entry {
        (self.key@, self.value@)
    }
}

impl Param {
    pub fn copied(&self) -> (r: Param)
        ensures
            r@ == self@,
    {
        Param { key: self.key.clone(), value: self.value.clone() }
    }
}

pub open spec fn entries_of(v: Seq<Param>) -> Seq<Entry> {
    v.map_values(|p: Param| p@)
}

/// The pieces of `s` between the occurrences of `sep`; an empty text is one
/// empty piece.
pub open spec fn split(s: Seq<char>, sep: char) -> Seq<Seq<char>>
    decreases s.len(),
{
    if s.len() == 0 {
        seq![Seq::<char>::empty()]
    } else {
        let rest = split(s.drop_last(), sep);
        if s.last() == sep {
            rest.push(Seq::<char>::empty())
        } else {
            rest.update(rest.len() - 1, rest.last().push(s.last()))
        }
    }
}

/// The first index at or after `i` that holds `c`, or the length of `s`.
pub open spec fn find_from(s: Seq<char>, c: char, i: int) -> int
    decreases s.len() - i,
{
    if i >= s.len() {
        s.len() as int
    } else if s[i] == c {
        i
    } else {
        find_from(s, c, i + 1)
    }
}

/// An entry: the key runs up to the first `:`, the value from there up to the
/// next `:` or the end. A piece without `:` is malformed.
pub open spec fn parse_entry(kv: Seq<char>) -> Option<Entry> {
    let c1 = find_from(kv, ':', 0);
    if c1 >= kv.len() {
        None
    } else {
        let c2 = find_from(kv, ':', c1 + 1);
        Some((kv.subrange(0, c1), kv.subrange(c1 + 1, c2)))
    }
}

pub open spec fn parse_pieces(ps: Seq<Seq<char>>) -> Option<Seq<Entry>>
    decreases ps.len(),
{
    if ps.len() == 0 {
        Some(Seq::<Entry>::empty())
    } else {
        match (parse_pieces(ps.drop_last()), parse_entry(ps.last())) {
            (Some(a), Some(e)) => Some(a.push(e)),
            _ => None,
        }
    }
}

/// The entries of a setting-string in order; the empty string has none.
pub open spec fn parse_setting(s: Seq<char>) -> Option<Seq<Entry>> {
    if s.len() == 0 {
        Some(Seq::<Entry>::empty())
    } else {
        parse_pieces(split(s, ','))
    }
}

proof fn lemma_find_from_bounds(s: Seq<char>, c: char, i: int)
    requires
        0 <= i <= s.len(),
    ensures
        i <= find_from(s, c, i) <= s.len(),
        find_from(s, c, i) < s.len() ==> s[find_from(s, c, i)] == c,
    decreases s.len() - i,
{
    if i < s.len() && s[i] != c {
        lemma_find_from_bounds(s, c, i + 1);
    }
}

/// The pieces of a prefix, but for its last (still open) one, begin the
/// pieces of the whole.
proof fn lemma_split_prefix(s: Seq<char>, sep: char, k: int)
    requires
        0 <= k <= s.len(),
    ensures
        split(s.take(k), sep).len() >= 1,
        split(s, sep).len() >= split(s.take(k), sep).len(),
        forall|j: int|
            0 <= j < split(s.take(k), sep).len() - 1 ==> #[trigger] split(s, sep)[j] == split(
                s.take(k),
                sep,
            )[j],
    decreases s.len() - k,
{
    lemma_split_nonempty(s.take(k), sep);
    if k == s.len() {
        assert(s.take(k) =~= s);
    } else {
        lemma_split_prefix(s, sep, k + 1);
        assert(s.take(k + 1).drop_last() =~= s.take(k));
    }
}

proof fn lemma_split_nonempty(s: Seq<char>, sep: char)
    ensures
        split(s, sep).len() >= 1,
    decreases s.len(),
{
    if s.len() > 0 {
        lemma_split_nonempty(s.drop_last(), sep);
    }
}

proof fn lemma_parse_pieces_prefix_none(ps: Seq<Seq<char>>, n: int)
    requires
        0 <= n <= ps.len(),
        parse_pieces(ps.take(n)) is None,
    ensures
        parse_pieces(ps) is None,
    decreases ps.len(),
{
    if n == ps.len() {
        assert(ps.take(n) =~= ps);
    } else {
        assert(ps.drop_last().take(n) =~= ps.take(n));
        lemma_parse_pieces_prefix_none(ps.drop_last(), n);
    }
}

/// The first index at or after `from` where `s` holds `c`, or its length.
fn find_char(s: &str, len: usize, c: char, from: usize) -> (r: usize)
    requires
        len == s@.len(),
        from <= len,
    ensures
        r == find_from(s@, c, from as int),
{
    let mut j: usize = from;
    while j < len && s.get_char(j) != c
        invariant
            from <= j <= len,
            len == s@.len(),
            find_from(s@, c, from as int) == find_from(s@, c, j as int),
        decreases len - j,
    {
        j = j + 1;
    }
    j
}

fn parse_piece(kv: &str) -> (r: Option<Param>)
    ensures
        match parse_entry(kv@) {
            Some(e) => r.is_some() && r.unwrap()@ == e,
            None => r.is_none(),
        },
{
    let len = kv.unicode_len();
    let c1 = find_char(kv, len, ':', 0);
    if c1 >= len {
        return None;
    }
    let c2 = find_char(kv, len, ':', c1 + 1);
    proof {
        lemma_find_from_bounds(kv@, ':', c1 + 1);
    }
    let key = kv.substring_char(0, c1).to_owned();
    let value = kv.substring_char(c1 + 1, c2).to_owned();
    Some(Param { key, value })
}

/// Splits a setting-string into its entries, in order. `None` when a piece
/// has no `:`; the empty string gives no entries.
pub fn parse_setting_entries(setting: &str) -> (r: Option<Vec<Param>>)
    ensures
        match parse_setting(setting@) {
            Some(es) => r.is_some() && entries_of(r.unwrap()@) == es,
            None => r.is_none(),
        },
{
    let len = setting.unicode_len();
    let mut out: Vec<Param> = Vec::new();
    if len == 0 {
        proof {
            assert(entries_of(out@) =~= Seq::<Entry>::empty());
        }
        return Some(out);
    }
    let ghost s = setting@;
    let mut start: usize = 0;
    let mut i: usize = 0;
    proof {
        assert(s.take(0).len() == 0);
        assert(split(s.take(0), ',') =~= seq![Seq::<char>::empty()]);
        assert(split(s.take(0), ',').drop_last() =~= Seq::<Seq<char>>::empty());
        assert(s.subrange(0, 0) =~= Seq::<char>::empty());
    }
    while i < len
        invariant
            len == s.len(),
            s == setting@,
            start <= i <= len,
            split(s.take(i as int), ',').len() >= 1,
            parse_pieces(split(s.take(i as int), ',').drop_last()) == Some(entries_of(out@)),
            split(s.take(i as int), ',').last() == s.subrange(start as int, i as int),
        decreases len - i,
    {
        let c = setting.get_char(i);
        let ghost old_split = split(s.take(i as int), ',');
        proof {
            assert(s.take(i + 1).drop_last() =~= s.take(i as int));
            assert(s.take(i + 1).last() == c);
        }
        if c == ',' {
            let piece = setting.substring_char(start, i);
            match parse_piece(piece) {
                Some(p) => {
                    let ghost old_out = out@;
                    out.push(p);
                    proof {
                        let ns = split(s.take(i + 1), ',');
                        assert(ns == old_split.push(Seq::<char>::empty()));
                        assert(ns.drop_last() =~= old_split);
                        assert(piece@ == old_split.last());
                        assert(parse_pieces(old_split) == Some(entries_of(old_out).push(p@)));
                        assert(entries_of(out@) =~= entries_of(old_out).push(p@));
                        assert(s.subrange(i + 1, i + 1) =~= Seq::<char>::empty());
                    }
                },
                None => {
                    proof {
                        let ns = split(s.take(i + 1), ',');
                        assert(old_split =~= old_split.drop_last().push(old_split.last()));
                        assert(ns.drop_last() =~= old_split);
                        lemma_split_prefix(s, ',', i + 1);
                        let whole = split(s, ',');
                        assert(whole.take(old_split.len() as int) =~= old_split);
                        lemma_parse_pieces_prefix_none(whole, old_split.len() as int);
                    }
                    return None;
                },
            }
            start = i + 1;
        } else {
            proof {
                let ns = split(s.take(i + 1), ',');
                assert(ns == old_split.update(old_split.len() - 1, old_split.last().push(c)));
                assert(ns.drop_last() =~= old_split.drop_last());
                assert(s.subrange(start as int, i + 1) =~= s.subrange(start as int, i as int).push(c));
            }
        }
        i = i + 1;
    }
    proof {
        assert(s.take(len as int) =~= s);
    }
    let piece = setting.substring_char(start, len);
    match parse_piece(piece) {
        Some(p) => {
            let ghost old_out = out@;
            out.push(p);
            proof {
                let ps = split(s, ',');
                assert(ps =~= ps.drop_last().push(ps.last()));
                assert(entries_of(out@) =~= entries_of(old_out).push(p@));
            }
            Some(out)
        },
        None => {
            proof {
                let ps = split(s, ',');
                assert(ps =~= ps.drop_last().push(ps.last()));
            }
            None
        },
    }
}


pub open spec fn keys_of(s: Seq<Entry>) -> Seq<Seq<char>> {
    s.map_values(|e: Entry| e.0)
}

/// Each key's first entry, in the order the entries come; later entries of a
/// key already seen are dropped.
pub open spec fn first_occurrences(s: Seq<Entry>) -> Seq<Entry>
    decreases s.len(),
{
    if s.len() == 0 {
        Seq::<Entry>::empty()
    } else {
        let d = first_occurrences(s.drop_last());
        if keys_of(s.drop_last()).contains(s.last().0) {
            d
        } else {
            d.push(s.last())
        }
    }
}

/// The parameter set: the caller's entries take precedence over the defaults,
/// and within the whole, a key's first entry wins.
pub open spec fn merge(caller: Seq<Entry>, defaults: Seq<Entry>) -> Seq<Entry> {
    first_occurrences(caller + defaults)
}

/// The value of the first entry with key `k`.
pub open spec fn lookup(s: Seq<Entry>, k: Seq<char>) -> Option<Seq<char>>
    decreases s.len(),
{
    if s.len() == 0 {
        None
    } else {
        match lookup(s.drop_last(), k) {
            Some(v) => Some(v),
            None => if s.last().0 == k {
                Some(s.last().1)
            } else {
                None
            },
        }
    }
}

proof fn lemma_keys_push(s: Seq<Entry>, e: Entry)
    ensures
        keys_of(s.push(e)) == keys_of(s).push(e.0),
{
    assert(keys_of(s.push(e)) =~= keys_of(s).push(e.0));
}

proof fn lemma_push_contains(ks: Seq<Seq<char>>, x: Seq<char>, k: Seq<char>)
    ensures
        ks.push(x).contains(k) <==> (ks.contains(k) || x == k),
{
    if ks.push(x).contains(k) {
        let m = choose|m: int| 0 <= m < ks.push(x).len() && ks.push(x)[m] == k;
        if m < ks.len() {
            assert(ks[m] == k);
        }
    }
    if ks.contains(k) {
        let m = choose|m: int| 0 <= m < ks.len() && ks[m] == k;
        assert(ks.push(x)[m] == k);
    }
    if x == k {
        assert(ks.push(x)[ks.len() as int] == k);
    }
}

proof fn lemma_lookup_some(s: Seq<Entry>, k: Seq<char>)
    ensures
        lookup(s, k) is Some <==> keys_of(s).contains(k),
    decreases s.len(),
{
    if s.len() > 0 {
        lemma_lookup_some(s.drop_last(), k);
        assert(s =~= s.drop_last().push(s.last()));
        lemma_keys_push(s.drop_last(), s.last());
        lemma_push_contains(keys_of(s.drop_last()), s.last().0, k);
    }
}

proof fn lemma_first_occurrences(s: Seq<Entry>)
    ensures
        forall|k: Seq<char>|
            #![auto]
            keys_of(first_occurrences(s)).contains(k) <==> keys_of(s).contains(k),
        forall|k: Seq<char>| #![auto] lookup(first_occurrences(s), k) == lookup(s, k),
        keys_of(first_occurrences(s)).no_duplicates(),
    decreases s.len(),
{
    if s.len() > 0 {
        let t = s.drop_last();
        let e = s.last();
        lemma_first_occurrences(t);
        assert(s =~= t.push(e));
        lemma_keys_push(t, e);
        let d = first_occurrences(t);
        if !keys_of(t).contains(e.0) {
            lemma_keys_push(d, e);
            assert(d.push(e).drop_last() =~= d);
            assert forall|a: int, b: int|
                0 <= a < b < keys_of(d.push(e)).len() implies keys_of(d.push(e))[a] != keys_of(
                d.push(e),
            )[b] by {
                if b == d.len() {
                    assert(keys_of(d)[a] == keys_of(d.push(e))[a]);
                    assert(keys_of(d).contains(keys_of(d)[a]));
                }
            }
        }
        assert forall|k: Seq<char>|
            #![auto]
            keys_of(first_occurrences(s)).contains(k) <==> keys_of(s).contains(k) by {
            lemma_push_contains(keys_of(t), e.0, k);
            lemma_push_contains(keys_of(d), e.0, k);
        }
        assert forall|k: Seq<char>| #![auto] lookup(first_occurrences(s), k) == lookup(s, k) by {
            lemma_lookup_some(t, k);
        }
    }
}

proof fn lemma_lookup_concat(a: Seq<Entry>, b: Seq<Entry>, k: Seq<char>)
    ensures
        lookup(a + b, k) == (if lookup(a, k) is Some {
            lookup(a, k)
        } else {
            lookup(b, k)
        }),
    decreases b.len(),
{
    if b.len() == 0 {
        assert(a + b =~= a);
    } else {
        assert((a + b).drop_last() =~= a + b.drop_last());
        lemma_lookup_concat(a, b.drop_last(), k);
    }
}

/// The merged parameter set holds each key of either source exactly once,
/// and a key's value is the caller's first value for it where the caller
/// gives one, else the first default value.
pub proof fn lemma_merge_law(caller: Seq<Entry>, defaults: Seq<Entry>)
    ensures
        keys_of(merge(caller, defaults)).no_duplicates(),
        forall|k: Seq<char>|
            #![auto]
            keys_of(merge(caller, defaults)).contains(k) <==> (keys_of(caller).contains(k)
                || keys_of(defaults).contains(k)),
        forall|k: Seq<char>|
            #![auto]
            lookup(merge(caller, defaults), k) == (if keys_of(caller).contains(k) {
                lookup(caller, k)
            } else {
                lookup(defaults, k)
            }),
{
    let all = caller + defaults;
    lemma_first_occurrences(all);
    assert(keys_of(all) =~= keys_of(caller) + keys_of(defaults));
    assert forall|k: Seq<char>|
        #![auto]
        keys_of(all).contains(k) <==> (keys_of(caller).contains(k) || keys_of(
            defaults,
        ).contains(k)) by {
        let ka = keys_of(caller);
        let kb = keys_of(defaults);
        if keys_of(all).contains(k) {
            let m = choose|m: int| 0 <= m < keys_of(all).len() && keys_of(all)[m] == k;
            if m < ka.len() {
                assert(ka[m] == k);
            } else {
                assert(kb[m - ka.len()] == k);
            }
        }
        if ka.contains(k) {
            let m = choose|m: int| 0 <= m < ka.len() && ka[m] == k;
            assert(keys_of(all)[m] == k);
        }
        if kb.contains(k) {
            let m = choose|m: int| 0 <= m < kb.len() && kb[m] == k;
            assert(keys_of(all)[m + ka.len()] == k);
        }
    }
    assert forall|k: Seq<char>|
        #![auto]
        lookup(merge(caller, defaults), k) == (if keys_of(caller).contains(k) {
            lookup(caller, k)
        } else {
            lookup(defaults, k)
        }) by {
        lemma_lookup_concat(caller, defaults, k);
        lemma_lookup_some(caller, k);
    }
}

/// Appends `p` unless its key is already among `out`'s.
fn add_if_new(out: &mut Vec<Param>, p: &Param, Ghost(prefix): Ghost<Seq<Entry>>)
    requires
        entries_of(old(out)@) == first_occurrences(prefix),
    ensures
        entries_of(final(out)@) == first_occurrences(prefix.push(p@)),
{
    proof {
        lemma_first_occurrences(prefix);
        assert(prefix.push(p@).drop_last() =~= prefix);
    }
    let mut seen = false;
    let mut j: usize = 0;
    while j < out.len()
        invariant
            j <= out.len(),
            seen <==> exists|m: int| 0 <= m < j && out@[m].key@ == p.key@,
        decreases out.len() - j,
    {
        if out[j].key == p.key {
            seen = true;
        }
        j = j + 1;
    }
    proof {
        let ks = keys_of(entries_of(out@));
        if seen {
            let m = choose|m: int| 0 <= m < j && out@[m].key@ == p.key@;
            assert(ks[m] == p.key@);
        } else {
            assert forall|m: int| 0 <= m < ks.len() implies ks[m] != p.key@ by {
                assert(ks[m] == out@[m].key@);
            }
        }
    }
    if !seen {
        let ghost old_out = out@;
        out.push(p.copied());
        proof {
            assert(entries_of(out@) =~= entries_of(old_out).push(p@));
        }
    }
}

/// Merges the caller's entries with the defaults: each key's first entry of
/// the caller's, then of the defaults, in that order.
pub fn merge_params(caller: &Vec<Param>, defaults: &Vec<Param>) -> (r: Vec<Param>)
    ensures
        entries_of(r@) == merge(entries_of(caller@), entries_of(defaults@)),
{
    let ghost cs = entries_of(caller@);
    let ghost all = cs + entries_of(defaults@);
    let mut out: Vec<Param> = Vec::new();
    let mut i: usize = 0;
    proof {
        assert(all.take(0) =~= Seq::<Entry>::empty());
        assert(entries_of(out@) =~= Seq::<Entry>::empty());
    }
    while i < caller.len()
        invariant
            all == entries_of(caller@) + entries_of(defaults@),
            i <= caller.len(),
            entries_of(out@) == first_occurrences(all.take(i as int)),
        decreases caller.len() - i,
    {
        proof {
            assert(all.take(i + 1) =~= all.take(i as int).push(caller@[i as int]@));
        }
        add_if_new(&mut out, &caller[i], Ghost(all.take(i as int)));
        i = i + 1;
    }
    let mut j: usize = 0;
    while j < defaults.len()
        invariant
            all == entries_of(caller@) + entries_of(defaults@),
            i == caller.len(),
            j <= defaults.len(),
            entries_of(out@) == first_occurrences(all.take(i + j)),
        decreases defaults.len() - j,
    {
        proof {
            assert(all.take(i + j + 1) =~= all.take(i + j).push(defaults@[j as int]@));
        }
        add_if_new(&mut out, &defaults[j], Ghost(all.take(i + j)));
        j = j + 1;
    }
    proof {
        assert(all.take(i + j) =~= all);
    }
    out
}

pub open spec fn is_digit(c: char) -> bool {
    '0' <= c <= '9'
}

pub open spec fn digit_value(c: char) -> int {
    (c as u32) as int - ('0' as u32) as int
}

pub open spec fn all_digits(s: Seq<char>) -> bool {
    s.len() > 0 && forall|i: int| 0 <= i < s.len() ==> is_digit(#[trigger] s[i])
}

/// The number that a run of decimal digits denotes.
pub open spec fn digits_value(s: Seq<char>) -> int
    decreases s.len(),
{
    if s.len() == 0 {
        0
    } else {
        10 * digits_value(s.drop_last()) + digit_value(s.last())
    }
}

/// The integer a text denotes: an optional `-`, then one or more decimal
/// digits, nothing else.
pub open spec fn decimal_value(s: Seq<char>) -> Option<int> {
    if s.len() > 0 && s[0] == '-' {
        if all_digits(s.drop_first()) {
            Some(-digits_value(s.drop_first()))
        } else {
            None
        }
    } else if all_digits(s) {
        Some(digits_value(s))
    } else {
        None
    }
}

pub open spec fn fits_i64(v: int) -> bool {
    i64::MIN <= v <= i64::MAX
}

proof fn lemma_digits_value_monotone(s: Seq<char>, k: int)
    requires
        0 <= k <= s.len(),
        forall|i: int| 0 <= i < s.len() ==> is_digit(#[trigger] s[i]),
    ensures
        0 <= digits_value(s.take(k)) <= digits_value(s),
    decreases s.len(),
{
    if k == s.len() {
        assert(s.take(k) =~= s);
        lemma_digits_value_nonneg(s);
    } else {
        let t = s.drop_last();
        assert(t.take(k) =~= s.take(k));
        lemma_digits_value_monotone(t, k);
        assert(is_digit(s[s.len() - 1]));
    }
}

proof fn lemma_digits_value_nonneg(s: Seq<char>)
    requires
        forall|i: int| 0 <= i < s.len() ==> is_digit(#[trigger] s[i]),
    ensures
        0 <= digits_value(s),
    decreases s.len(),
{
    if s.len() > 0 {
        lemma_digits_value_nonneg(s.drop_last());
        assert(is_digit(s[s.len() - 1]));
    }
}

/// Reads a decimal integer; `None` unless the whole text is one that fits in
/// an `i64`.
pub fn parse_i64(s: &str) -> (r: Option<i64>)
    ensures
        r is Some <==> (decimal_value(s@) is Some && fits_i64(decimal_value(s@).unwrap())),
        r is Some ==> r.unwrap() == decimal_value(s@).unwrap(),
{
    let len = s.unicode_len();
    let negative = len > 0 && s.get_char(0) == '-';
    let start: usize = if negative { 1 } else { 0 };
    if start >= len {
        return None;
    }
    let ghost ds = s@.subrange(start as int, len as int);
    proof {
        if negative {
            assert(ds =~= s@.drop_first());
        } else {
            assert(ds =~= s@);
        }
    }
    let bound: u128 = 9223372036854775808;
    let mut mag: u128 = 0;
    let mut i: usize = start;
    while i < len
        invariant
            start <= i <= len,
            len == s@.len(),
            ds == s@.subrange(start as int, len as int),
            start < len,
            start == (if negative { 1int } else { 0int }),
            negative <==> (s@.len() > 0 && s@[0] == '-'),
            forall|m: int| start <= m < i ==> is_digit(#[trigger] s@[m]),
            mag == digits_value(s@.subrange(start as int, i as int)),
            mag <= bound,
            bound == 9223372036854775808,
        decreases len - i,
    {
        let c = s.get_char(i);
        if !('0' <= c && c <= '9') {
            proof {
                assert(ds[i - start] == c);
            }
            return None;
        }
        let d = (c as u32 - '0' as u32) as u128;
        proof {
            let p = s@.subrange(start as int, i + 1);
            assert(p.drop_last() =~= s@.subrange(start as int, i as int));
            assert(p.last() == c);
        }
        mag = mag * 10 + d;
        assert(mag == digits_value(s@.subrange(start as int, i + 1)));
        if mag > bound {
            proof {
                let p = s@.subrange(start as int, i + 1);
                if negative {
                    assert(ds =~= s@.drop_first());
                } else {
                    assert(ds =~= s@);
                }
                if all_digits(ds) {
                    assert(ds.take(i + 1 - start) =~= p);
                    lemma_digits_value_monotone(ds, i + 1 - start);
                }
            }
            return None;
        }
        i = i + 1;
    }
    proof {
        assert(s@.subrange(start as int, len as int) =~= ds);
        assert forall|m: int| 0 <= m < ds.len() implies is_digit(#[trigger] ds[m]) by {
            assert(ds[m] == s@[m + start]);
        }
    }
    if negative {
        Some((0 - (mag as i128)) as i64)
    } else if mag <= 9223372036854775807 {
        Some(mag as i64)
    } else {
        None
    }
}

/// The value of the first entry with key `key`.
pub fn lookup_value<'a>(entries: &'a Vec<Param>, key: &String) -> (r: Option<&'a String>)
    ensures
        match lookup(entries_of(entries@), key@) {
            Some(v) => r is Some && r.unwrap()@ == v,
            None => r is None,
        },
{
    let ghost es = entries_of(entries@);
    let mut i: usize = 0;
    proof {
        assert(es.take(0) =~= Seq::<Entry>::empty());
    }
    while i < entries.len()
        invariant
            es == entries_of(entries@),
            i <= entries.len(),
            lookup(es.take(i as int), key@) is None,
        decreases entries.len() - i,
    {
        proof {
            assert(es.take(i + 1).drop_last() =~= es.take(i as int));
        }
        if entries[i].key == *key {
            proof {
                lemma_lookup_concat(es.take(i + 1), es.skip(i + 1), key@);
                assert(es.take(i + 1) + es.skip(i + 1) =~= es);
            }
            return Some(&entries[i].value);
        }
        i = i + 1;
    }
    proof {
        assert(es.take(i as int) =~= es);
    }
    None
}

} // verus!
