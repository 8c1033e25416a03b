//! Tag sets: the comma-separated `tags` field of a torrent, read and written.
use vstd::prelude::*;
use vstd::string::*;
use crate::text::{
    chars_of, contains_string, fields, join, join_strings, lemma_fields_nonempty, lemma_lt_from_asym,
    lemma_lt_from_trans, lemma_str_less_total, less_than, str_less, trim, trim_bounds, views,
    lemma_fields_concat, lemma_fields_single, lemma_trim_after_space, lemma_trim_idempotent,
    lemma_trim_within, lemma_fields_free_of_sep,
};

verus! {

/// The characters of an optional string, empty when it is absent.
pub open spec fn opt_chars(o: Option<String>) -> Seq<char> {
    match o {
        Some(s) => s@,
        None => Seq::<char>::empty(),
    }
}

/// The non-empty trimmed fields among `fs`.
pub open spec fn tags_of_fields(fs: Seq<Seq<char>>) -> Set<Seq<char>>
    decreases fs.len(),
{
    if fs.len() == 0 {
        Set::empty()
    } else {
        let t = trim(fs.last());
        let rest = tags_of_fields(fs.drop_last());
        if t.len() > 0 {
            rest.insert(t)
        } else {
            rest
        }
    }
}

/// The set of tags that a comma-separated tag list names.
pub open spec fn tag_set(s: Seq<char>) -> Set<Seq<char>> {
    tags_of_fields(fields(s, ','))
}

/// The set of tags that a list of strings holds.
pub open spec fn set_of(v: Seq<String>) -> Set<Seq<char>> {
    views(v).to_set()
}

/// A list of distinct tags.
pub open spec fn distinct(v: Seq<String>) -> bool {
    views(v).no_duplicates()
}

/// Adds `t` to the distinct list `v` unless it is there already.
pub fn insert_tag(v: &mut Vec<String>, t: String)
    requires
        distinct(old(v)@),
    ensures
        distinct(final(v)@),
        set_of(final(v)@) == set_of(old(v)@).insert(t@),
{
    if !contains_string(v, t.as_str()) {
        let ghost before = views(v@);
        v.push(t);
        assert(views(v@) =~= before.push(t@));
        assert(set_of(v@) =~= set_of(old(v)@).insert(t@)) by {
            assert forall|x: Seq<char>| set_of(v@).contains(x) implies set_of(old(v)@).insert(
                t@,
            ).contains(x) by {
                let j = choose|j: int| 0 <= j < views(v@).len() && views(v@)[j] == x;
                if j < before.len() {
                    assert(before[j] == x);
                }
            }
            assert forall|x: Seq<char>| set_of(old(v)@).insert(t@).contains(x) implies set_of(
                v@,
            ).contains(x) by {
                if x == t@ {
                    assert(views(v@)[before.len() as int] == x);
                } else {
                    let j = choose|j: int| 0 <= j < before.len() && before[j] == x;
                    assert(views(v@)[j] == x);
                }
            }
        }
    } else {
        assert(set_of(v@) =~= set_of(v@).insert(t@));
    }
}

proof fn lemma_fields_step(s: Seq<char>, i: int, sep: char)
    requires
        0 <= i < s.len(),
    ensures
        s.take(i + 1).drop_last() =~= s.take(i),
        s.take(i + 1).last() == s[i],
        fields(s.take(i + 1), sep) == (if s[i] == sep {
            fields(s.take(i), sep).push(Seq::<char>::empty())
        } else {
            let f = fields(s.take(i), sep);
            f.update(f.len() - 1, f.last().push(s[i]))
        }),
{
    assert(s.take(i + 1).drop_last() =~= s.take(i));
}

/// The tags named by a comma-separated list: each field trimmed, empty
/// fields dropped, each tag once.
pub fn parse_tags(tags: &Option<String>) -> (r: Vec<String>)
    ensures
        set_of(r@) == tag_set(opt_chars(*tags)),
        distinct(r@),
{
    let mut r: Vec<String> = Vec::new();
    let src: &str = match tags {
        Some(t) => t.as_str(),
        None => "",
    };
    proof {
        reveal_strlit("");
    }
    assert(src@ == opt_chars(*tags));
    let v = chars_of(src);
    let mut start: usize = 0;
    let mut i: usize = 0;
    assert(v@.take(0) =~= Seq::<char>::empty());
    assert(set_of(r@) =~= Set::<Seq<char>>::empty());
    while i < v.len()
        invariant
            start <= i <= v@.len(),
            v@ == src@,
            fields(v@.take(i as int), ',').len() >= 1,
            fields(v@.take(i as int), ',').last() == v@.subrange(start as int, i as int),
            set_of(r@) == tags_of_fields(fields(v@.take(i as int), ',').drop_last()),
            distinct(r@),
        decreases v@.len() - i,
    {
        let ghost f = fields(v@.take(i as int), ',');
        proof {
            lemma_fields_step(v@, i as int, ',');
            lemma_fields_nonempty(v@.take(i + 1), ',');
        }
        if v[i] == ',' {
            let (a, b) = trim_bounds(&v, start, i);
            if a < b {
                let t = src.substring_char(a, b).to_owned();
                insert_tag(&mut r, t);
            }
            assert(f.push(Seq::<char>::empty()).drop_last() =~= f);
            assert(f.drop_last() =~= f.drop_last());
            start = i + 1;
            assert(v@.subrange(start as int, i + 1) =~= Seq::<char>::empty());
        } else {
            let ghost g = f.update(f.len() - 1, f.last().push(v@[i as int]));
            assert(g.drop_last() =~= f.drop_last());
            assert(g.last() =~= v@.subrange(start as int, i + 1));
        }
        i = i + 1;
    }
    assert(v@.take(v@.len() as int) =~= v@);
    let (a, b) = trim_bounds(&v, start, v.len());
    if a < b {
        let t = src.substring_char(a, b).to_owned();
        insert_tag(&mut r, t);
    }
    r
}


/// `s` is in strictly ascending order.
pub open spec fn ascending(s: Seq<Seq<char>>) -> bool {
    forall|i: int, j: int| 0 <= i < j < s.len() ==> str_less(#[trigger] s[i], #[trigger] s[j])
}

/// `s` lists the members of `set` in ascending order, each once.
pub open spec fn sorted_listing(s: Seq<Seq<char>>, set: Set<Seq<char>>) -> bool {
    &&& s.to_set() == set
    &&& s.no_duplicates()
    &&& ascending(s)
}

/// The text that a set of tags is written as: the tags in ascending order,
/// separated by a comma and a space.
pub open spec fn tags_text(set: Set<Seq<char>>, text: Seq<char>) -> bool {
    exists|s: Seq<Seq<char>>| sorted_listing(s, set) && text == join(s, ", "@)
}

pub proof fn lemma_push_to_set<A>(s: Seq<A>, x: A)
    ensures
        s.push(x).to_set() == s.to_set().insert(x),
{
    assert forall|y: A| s.push(x).to_set().contains(y) implies s.to_set().insert(x).contains(y) by {
        let j = choose|j: int| 0 <= j < s.push(x).len() && s.push(x)[j] == y;
        if j < s.len() {
            assert(s[j] == y);
        }
    }
    assert forall|y: A| s.to_set().insert(x).contains(y) implies s.push(x).to_set().contains(y) by {
        if y == x {
            assert(s.push(x)[s.len() as int] == y);
        } else {
            let j = choose|j: int| 0 <= j < s.len() && s[j] == y;
            assert(s.push(x)[j] == y);
        }
    }
    assert(s.push(x).to_set() =~= s.to_set().insert(x));
}

/// Inserts `t`, absent from the ascending list `out`, at its place.
fn insert_sorted(out: &mut Vec<String>, t: String)
    requires
        ascending(views(old(out)@)),
        !views(old(out)@).contains(t@),
    ensures
        ascending(views(final(out)@)),
        views(final(out)@).to_set() == views(old(out)@).to_set().insert(t@),
        views(final(out)@).len() == views(old(out)@).len() + 1,
{
    let ghost o = views(out@);
    let mut p: usize = 0;
    while p < out.len() && !less_than(t.as_str(), out[p].as_str())
        invariant
            p <= out@.len(),
            o == views(out@),
            !o.contains(t@),
            forall|k: int| 0 <= k < p ==> str_less(#[trigger] o[k], t@),
        decreases out@.len() - p,
    {
        assert(o[p as int] == out@[p as int]@);
        assert(o[p as int] != t@);
        proof {
            lemma_str_less_total(o[p as int], t@);
        }
        p = p + 1;
    }
    assert forall|k: int| p <= k < o.len() implies str_less(t@, #[trigger] o[k]) by {
        assert(o[p as int] == out@[p as int]@);
        if k > p {
            lemma_lt_from_trans(t@, o[p as int], o[k], 0);
        }
    }
    out.insert(p, t);
    let ghost n = views(out@);
    assert(n =~= o.insert(p as int, t@));
    assert forall|i: int, j: int| 0 <= i < j < n.len() implies str_less(
        #[trigger] n[i],
        #[trigger] n[j],
    ) by {
        if j < p {
        } else if j == p {
        } else if i < p {
            assert(n[j] == o[j - 1]);
            lemma_lt_from_trans(o[i], t@, o[j - 1], 0);
        } else if i == p {
            assert(n[j] == o[j - 1]);
        } else {
            assert(n[i] == o[i - 1]);
            assert(n[j] == o[j - 1]);
        }
    }
    assert(n.to_set() =~= o.to_set().insert(t@)) by {
        assert forall|x: Seq<char>| n.to_set().contains(x) implies o.to_set().insert(t@).contains(
            x,
        ) by {
            let j = choose|j: int| 0 <= j < n.len() && n[j] == x;
            if j < p {
                assert(o[j] == x);
            } else if j > p {
                assert(o[j - 1] == x);
            }
        }
        assert forall|x: Seq<char>| o.to_set().insert(t@).contains(x) implies n.to_set().contains(
            x,
        ) by {
            if x == t@ {
                assert(n[p as int] == x);
            } else {
                let j = choose|j: int| 0 <= j < o.len() && o[j] == x;
                if j < p {
                    assert(n[j] == x);
                } else {
                    assert(n[j + 1] == x);
                }
            }
        }
    }
}

/// An ascending list has no duplicates.
pub proof fn lemma_ascending_distinct(s: Seq<Seq<char>>)
    requires
        ascending(s),
    ensures
        s.no_duplicates(),
{
    assert forall|i: int, j: int| 0 <= i < s.len() && 0 <= j < s.len() && i != j implies s[i]
        != s[j] by {
        if i < j {
            if s[i] == s[j] {
                lemma_lt_from_asym(s[i], s[j], 0);
            }
        } else {
            if s[i] == s[j] {
                lemma_lt_from_asym(s[j], s[i], 0);
            }
        }
    }
}

/// The tags written in ascending order, separated by a comma and a space.
pub fn sorted_tags_string(tags: &Vec<String>) -> (r: String)
    requires
        distinct(tags@),
    ensures
        tags_text(set_of(tags@), r@),
{
    let mut out: Vec<String> = Vec::new();
    let mut i: usize = 0;
    assert(views(out@).to_set() =~= views(tags@).take(0).to_set());
    while i < tags.len()
        invariant
            i <= tags@.len(),
            distinct(tags@),
            ascending(views(out@)),
            views(out@).to_set() == views(tags@).take(i as int).to_set(),
        decreases tags@.len() - i,
    {
        let ghost pre = views(tags@).take(i as int);
        let t = tags[i].clone();
        assert(views(tags@).take(i + 1) =~= pre.push(t@));
        assert(!pre.contains(t@)) by {
            if pre.contains(t@) {
                let j = choose|j: int| 0 <= j < pre.len() && pre[j] == t@;
                assert(views(tags@)[j] == views(tags@)[i as int]);
            }
        }
        assert(!views(out@).contains(t@)) by {
            if views(out@).contains(t@) {
                let j = choose|j: int| 0 <= j < views(out@).len() && views(out@)[j] == t@;
                assert(views(out@).to_set().contains(t@));
            }
        }
        insert_sorted(&mut out, t);
        proof {
            lemma_push_to_set(pre, t@);
        }
        i = i + 1;
    }
    assert(views(tags@).take(tags@.len() as int) =~= views(tags@));
    proof {
        lemma_ascending_distinct(views(out@));
    }
    let r = join_strings(&out, ", ");
    assert(sorted_listing(views(out@), set_of(tags@)));
    r
}


/// A tag as a tag list can hold it: non-empty, without a comma, and
/// without white space at either end.
pub open spec fn valid_tag(t: Seq<char>) -> bool {
    &&& t.len() > 0
    &&& !t.contains(',')
    &&& trim(t) == t
}

proof fn lemma_tags_of_fields_push(fs: Seq<Seq<char>>, x: Seq<char>)
    ensures
        tags_of_fields(fs.push(x)) == (if trim(x).len() > 0 {
            tags_of_fields(fs).insert(trim(x))
        } else {
            tags_of_fields(fs)
        }),
{
    assert(fs.push(x).drop_last() =~= fs);
}

proof fn lemma_join_tags(s: Seq<Seq<char>>)
    requires
        forall|i: int| 0 <= i < s.len() ==> valid_tag(#[trigger] s[i]),
    ensures
        tag_set(join(s, ", "@)) == s.to_set(),
    decreases s.len(),
{
    reveal_strlit(", ");
    if s.len() == 0 {
        assert(join(s, ", "@) == Seq::<char>::empty());
        assert(fields(Seq::<char>::empty(), ',') == seq![Seq::<char>::empty()]);
        assert(seq![Seq::<char>::empty()].drop_last() =~= Seq::<Seq<char>>::empty());
        assert(trim(Seq::<char>::empty()).len() == 0);
        assert(tags_of_fields(seq![Seq::<char>::empty()]) == tags_of_fields(Seq::<Seq<char>>::empty()));
        assert(s.to_set() =~= Set::<Seq<char>>::empty());
        assert(tag_set(join(s, ", "@)) == s.to_set());
    } else if s.len() == 1 {
        assert(valid_tag(s[0]));
        lemma_fields_single(s[0], ',');
        assert(seq![s[0]] =~= Seq::<Seq<char>>::empty().push(s[0]));
        lemma_tags_of_fields_push(Seq::<Seq<char>>::empty(), s[0]);
        assert(s =~= Seq::<Seq<char>>::empty().push(s[0]));
        lemma_push_to_set(Seq::<Seq<char>>::empty(), s[0]);
        assert(Seq::<Seq<char>>::empty().to_set() =~= Set::<Seq<char>>::empty());
        assert(tag_set(join(s, ", "@)) == s.to_set());
    } else {
        let dl = s.drop_last();
        let last = s.last();
        assert(valid_tag(last));
        lemma_join_tags(dl);
        let j = join(dl, ", "@);
        let tail = seq![' '] + last;
        assert(join(s, ", "@) =~= j + seq![','] + tail);
        lemma_fields_concat(j, tail, ',');
        assert(!tail.contains(',')) by {
            if tail.contains(',') {
                let k = choose|k: int| 0 <= k < tail.len() && tail[k] == ',';
                assert(last[k - 1] == ',');
            }
        }
        lemma_fields_single(tail, ',');
        assert(fields(j, ',') + seq![tail] =~= fields(j, ',').push(tail));
        lemma_tags_of_fields_push(fields(j, ','), tail);
        lemma_trim_after_space(last);
        assert(s =~= dl.push(last));
        lemma_push_to_set(dl, last);
        assert(fields(join(s, ", "@), ',') == fields(j, ',').push(tail));
        assert(tag_set(join(s, ", "@)) == tags_of_fields(fields(j, ',')).insert(last));
    }
}

/// What a tag list reads back of what was written: the tags parsed from the
/// text written for a set of valid tags are that set.
pub proof fn law_tags_round_trip(set: Set<Seq<char>>, text: Seq<char>)
    requires
        forall|t: Seq<char>| set.contains(t) ==> valid_tag(t),
        tags_text(set, text),
    ensures
        tag_set(text) == set,
{
    let s = choose|s: Seq<Seq<char>>| sorted_listing(s, set) && text == join(s, ", "@);
    assert forall|i: int| 0 <= i < s.len() implies valid_tag(#[trigger] s[i]) by {
        assert(s.to_set().contains(s[i]));
    }
    lemma_join_tags(s);
}

proof fn lemma_tags_of_fields_valid(fs: Seq<Seq<char>>)
    requires
        forall|i: int| 0 <= i < fs.len() ==> !(#[trigger] fs[i]).contains(','),
    ensures
        forall|t: Seq<char>| tags_of_fields(fs).contains(t) ==> valid_tag(t),
    decreases fs.len(),
{
    if fs.len() > 0 {
        lemma_tags_of_fields_valid(fs.drop_last());
        assert(!fs[fs.len() - 1].contains(','));
        lemma_trim_within(fs.last(), ',');
        lemma_trim_idempotent(fs.last());
    }
}

/// Every tag that a tag list names is a valid tag.
pub proof fn law_parsed_tags_valid(s: Seq<char>)
    ensures
        forall|t: Seq<char>| tag_set(s).contains(t) ==> valid_tag(t),
{
    lemma_fields_free_of_sep(s, ',');
    lemma_tags_of_fields_valid(fields(s, ','));
}


proof fn lemma_set_of_take_push(a: Seq<String>, i: int)
    requires
        0 <= i < a.len(),
    ensures
        set_of(a.take(i + 1)) == set_of(a.take(i)).insert(a[i]@),
{
    assert(views(a.take(i + 1)) =~= views(a.take(i)).push(a[i]@));
    lemma_push_to_set(views(a.take(i)), a[i]@);
}

proof fn lemma_set_of_take_all(a: Seq<String>)
    ensures
        set_of(a.take(a.len() as int)) == set_of(a),
{
    assert(a.take(a.len() as int) =~= a);
}

/// Whether the tag list holds `x`.
pub fn has_tag(v: &Vec<String>, x: &str) -> (b: bool)
    ensures
        b == set_of(v@).contains(x@),
{
    contains_string(v, x)
}

/// The tags of `a` that are not in `b`.
pub fn tags_minus(a: &Vec<String>, b: &Vec<String>) -> (r: Vec<String>)
    ensures
        distinct(r@),
        set_of(r@) == set_of(a@).difference(set_of(b@)),
{
    let mut r: Vec<String> = Vec::new();
    let mut i: usize = 0;
    assert(set_of(r@) =~= set_of(a@.take(0)).difference(set_of(b@)));
    while i < a.len()
        invariant
            i <= a@.len(),
            distinct(r@),
            set_of(r@) == set_of(a@.take(i as int)).difference(set_of(b@)),
        decreases a@.len() - i,
    {
        proof {
            lemma_set_of_take_push(a@, i as int);
        }
        if !has_tag(b, a[i].as_str()) {
            insert_tag(&mut r, a[i].clone());
            assert(set_of(r@) =~= set_of(a@.take(i + 1)).difference(set_of(b@)));
        } else {
            assert(set_of(r@) =~= set_of(a@.take(i + 1)).difference(set_of(b@)));
        }
        i = i + 1;
    }
    proof {
        lemma_set_of_take_all(a@);
    }
    r
}

/// The tags of `a` together with those of `b`.
pub fn tags_union(a: &Vec<String>, b: &Vec<String>) -> (r: Vec<String>)
    requires
        distinct(a@),
    ensures
        distinct(r@),
        set_of(r@) == set_of(a@).union(set_of(b@)),
{
    let mut r: Vec<String> = a.clone();
    let mut i: usize = 0;
    assert(set_of(r@) =~= set_of(a@).union(set_of(b@.take(0))));
    while i < b.len()
        invariant
            i <= b@.len(),
            distinct(r@),
            set_of(r@) == set_of(a@).union(set_of(b@.take(i as int))),
        decreases b@.len() - i,
    {
        proof {
            lemma_set_of_take_push(b@, i as int);
        }
        insert_tag(&mut r, b[i].clone());
        assert(set_of(r@) =~= set_of(a@).union(set_of(b@.take(i + 1))));
        i = i + 1;
    }
    proof {
        lemma_set_of_take_all(b@);
    }
    r
}


proof fn lemma_drop_first_set(s: Seq<Seq<char>>)
    requires
        s.len() > 0,
        s.no_duplicates(),
    ensures
        s.drop_first().to_set() == s.to_set().remove(s[0]),
{
    assert forall|x: Seq<char>| s.drop_first().to_set().contains(x) implies s.to_set().remove(s[0]).contains(x) by {
        let j = choose|j: int| 0 <= j < s.drop_first().len() && s.drop_first()[j] == x;
        assert(s[j + 1] == x);
    }
    assert forall|x: Seq<char>| s.to_set().remove(s[0]).contains(x) implies s.drop_first().to_set().contains(x) by {
        let j = choose|j: int| 0 <= j < s.len() && s[j] == x;
        assert(j != 0);
        assert(s.drop_first()[j - 1] == x);
    }
    assert(s.drop_first().to_set() =~= s.to_set().remove(s[0]));
}

proof fn lemma_ascending_unique(s1: Seq<Seq<char>>, s2: Seq<Seq<char>>)
    requires
        ascending(s1),
        ascending(s2),
        s1.to_set() == s2.to_set(),
    ensures
        s1 == s2,
    decreases s1.len(),
{
    if s1.len() == 0 {
        if s2.len() > 0 {
            assert(s2.to_set().contains(s2[0]));
        }
        assert(s1 =~= s2);
    } else {
        assert(s1.to_set().contains(s1[0]));
        assert(s2.len() > 0);
        let a = s1[0];
        let b = s2[0];
        if a != b {
            assert(s2.to_set().contains(a));
            let j = choose|j: int| 0 <= j < s2.len() && s2[j] == a;
            assert(s1.to_set().contains(b) == s2.to_set().contains(b));
            assert(s2.to_set().contains(b));
            let k = choose|k: int| 0 <= k < s1.len() && s1[k] == b;
            assert(str_less(b, a));
            assert(str_less(a, b));
            lemma_lt_from_asym(a, b, 0);
        }
        lemma_ascending_distinct(s1);
        lemma_ascending_distinct(s2);
        lemma_drop_first_set(s1);
        lemma_drop_first_set(s2);
        assert(ascending(s1.drop_first())) by {
            assert forall|i: int, j: int| 0 <= i < j < s1.drop_first().len() implies str_less(
                #[trigger] s1.drop_first()[i],
                #[trigger] s1.drop_first()[j],
            ) by {
                assert(s1.drop_first()[i] == s1[i + 1]);
                assert(s1.drop_first()[j] == s1[j + 1]);
            }
        }
        assert(ascending(s2.drop_first())) by {
            assert forall|i: int, j: int| 0 <= i < j < s2.drop_first().len() implies str_less(
                #[trigger] s2.drop_first()[i],
                #[trigger] s2.drop_first()[j],
            ) by {
                assert(s2.drop_first()[i] == s2[i + 1]);
                assert(s2.drop_first()[j] == s2[j + 1]);
            }
        }
        lemma_ascending_unique(s1.drop_first(), s2.drop_first());
        assert(s1 =~= seq![a] + s1.drop_first());
        assert(s2 =~= seq![b] + s2.drop_first());
    }
}

/// The text written for a set of tags is determined by the set: the same
/// tags, in any order, are always written the same way.
pub proof fn law_tags_text_unique(set: Set<Seq<char>>, a: Seq<char>, b: Seq<char>)
    requires
        tags_text(set, a),
        tags_text(set, b),
    ensures
        a == b,
{
    let s1 = choose|s: Seq<Seq<char>>| sorted_listing(s, set) && a == join(s, ", "@);
    let s2 = choose|s: Seq<Seq<char>>| sorted_listing(s, set) && b == join(s, ", "@);
    lemma_ascending_unique(s1, s2);
}


/// Rewriting a tag list in order changes no tag: the tags read from the
/// text written for the tags of `s` are the tags of `s`.
pub proof fn law_rewrite_keeps_tags(s: Seq<char>, text: Seq<char>)
    requires
        tags_text(tag_set(s), text),
    ensures
        tag_set(text) == tag_set(s),
{
    law_parsed_tags_valid(s);
    law_tags_round_trip(tag_set(s), text);
}

} // verus!
