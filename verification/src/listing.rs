//! Reading a remote directory listing: NUL-separated paths turned into
//! named entries, ordered by their lowercase names.
use vstd::prelude::*;
use vstd::utf8::{decode_utf8, valid_utf8};
use crate::ssh::{single_line, SshDirectoryEntry};
use crate::text::{
    chars_of, decode_strict, first_line, lowercase, string_of, to_lowercase, utf8_lossy,
};

verus! {

/// The name and path of an entry.
pub open spec fn entry_view(e: SshDirectoryEntry) -> (Seq<char>, Seq<char>) {
    (e.name@, e.path@)
}

/// The views of a list of entries.
pub open spec fn entry_views(v: Seq<SshDirectoryEntry>) -> Seq<(Seq<char>, Seq<char>)> {
    v.map_values(|e: SshDirectoryEntry| entry_view(e))
}

/// The chunks of `b` that are complete (ended by a NUL byte), and the
/// chunk still open at its end.
pub open spec fn split_state(b: Seq<u8>) -> (Seq<Seq<u8>>, Seq<u8>)
    decreases b.len(),
{
    if b.len() == 0 {
        (Seq::empty(), Seq::empty())
    } else {
        let (done, open) = split_state(b.drop_last());
        if b.last() == 0 {
            (done.push(open), Seq::empty())
        } else {
            (done, open.push(b.last()))
        }
    }
}

/// `b` split at each NUL byte (`<[u8]>::split`).
pub open spec fn split_nul(b: Seq<u8>) -> Seq<Seq<u8>> {
    split_state(b).0.push(split_state(b).1)
}

/// `s` without its trailing `/` characters.
pub open spec fn strip_trailing_slashes(s: Seq<char>) -> Seq<char>
    decreases s.len(),
{
    if s.len() > 0 && s.last() == '/' {
        strip_trailing_slashes(s.drop_last())
    } else {
        s
    }
}

/// The part of `s` after its last `/` (all of `s` when it has none).
pub open spec fn last_component(s: Seq<char>) -> Seq<char>
    decreases s.len(),
{
    if s.len() == 0 || s.last() == '/' {
        Seq::empty()
    } else {
        last_component(s.drop_last()).push(s.last())
    }
}

/// The entry for one listed path: the path without trailing slashes, and
/// its last component as the name.
pub open spec fn entry_of(text: Seq<char>) -> (Seq<char>, Seq<char>) {
    let path = strip_trailing_slashes(text);
    (last_component(path), path)
}

/// Whether a chunk of the listing names an entry: it is non-empty and
/// valid UTF-8 (other chunks are skipped).
pub open spec fn names_entry(chunk: Seq<u8>) -> bool {
    chunk.len() > 0 && valid_utf8(chunk)
}

/// The entries named by the chunks, in listing order.
pub open spec fn listed_entries(chunks: Seq<Seq<u8>>) -> Seq<(Seq<char>, Seq<char>)>
    decreases chunks.len(),
{
    if chunks.len() == 0 {
        Seq::empty()
    } else {
        let earlier = listed_entries(chunks.drop_last());
        if names_entry(chunks.last()) {
            earlier.push(entry_of(decode_utf8(chunks.last())))
        } else {
            earlier
        }
    }
}

/// Strict lexicographic order of character sequences by code point (the
/// order of `String`'s `Ord`, since UTF-8 keeps code point order).
pub open spec fn text_less(a: Seq<char>, b: Seq<char>) -> bool
    decreases a.len(),
{
    if a.len() == 0 {
        b.len() > 0
    } else if b.len() == 0 {
        false
    } else if a[0] != b[0] {
        (a[0] as u32) < (b[0] as u32)
    } else {
        text_less(a.drop_first(), b.drop_first())
    }
}

/// The key that orders entries: the lowercase name.
pub open spec fn entry_key(e: (Seq<char>, Seq<char>)) -> Seq<char> {
    lowercase(e.0)
}

/// `x` placed into `s` after every entry whose key is not greater than its
/// own.
pub open spec fn insert_by_key(s: Seq<(Seq<char>, Seq<char>)>, x: (Seq<char>, Seq<char>)) -> Seq<
    (Seq<char>, Seq<char>),
>
    decreases s.len(),
{
    if s.len() > 0 && text_less(entry_key(x), entry_key(s.last())) {
        insert_by_key(s.drop_last(), x).push(s.last())
    } else {
        s.push(x)
    }
}

/// `s` stably ordered by key.
pub open spec fn sort_by_key(s: Seq<(Seq<char>, Seq<char>)>) -> Seq<(Seq<char>, Seq<char>)>
    decreases s.len(),
{
    if s.len() == 0 {
        s
    } else {
        insert_by_key(sort_by_key(s.drop_last()), s.last())
    }
}

/// The entries of a listing, stably ordered by lowercase name.
pub open spec fn directory_listing(stdout: Seq<u8>) -> Seq<(Seq<char>, Seq<char>)> {
    sort_by_key(listed_entries(split_nul(stdout)))
}

/// No text comes strictly before itself.
proof fn lemma_text_less_irreflexive(a: Seq<char>)
    ensures
        !text_less(a, a),
    decreases a.len(),
{
    if a.len() > 0 {
        lemma_text_less_irreflexive(a.drop_first());
    }
}

/// `text_less` is transitive.
proof fn lemma_text_less_transitive(a: Seq<char>, b: Seq<char>, c: Seq<char>)
    requires
        text_less(a, b),
        text_less(b, c),
    ensures
        text_less(a, c),
    decreases a.len(),
{
    if a.len() > 0 && b.len() > 0 && c.len() > 0 && a[0] == b[0] && b[0] == c[0] {
        lemma_text_less_transitive(a.drop_first(), b.drop_first(), c.drop_first());
    }
}

/// Any two different texts are ordered one way or the other.
proof fn lemma_text_less_total(a: Seq<char>, b: Seq<char>)
    ensures
        a == b || text_less(a, b) || text_less(b, a),
    decreases a.len(),
{
    if a.len() > 0 && b.len() > 0 {
        if a[0] == b[0] {
            lemma_text_less_total(a.drop_first(), b.drop_first());
            if a.drop_first() == b.drop_first() {
                assert(a =~= seq![a[0]] + a.drop_first());
                assert(b =~= seq![b[0]] + b.drop_first());
            }
        } else {
            let x = a[0] as u32;
            let y = b[0] as u32;
            vstd::utf8::char_u32_cast(a[0], x);
            vstd::utf8::char_u32_cast(b[0], y);
        }
    } else if a.len() == 0 && b.len() == 0 {
        assert(a =~= b);
    }
}

/// "Not after" is transitive.
proof fn lemma_not_less_transitive(a: Seq<char>, b: Seq<char>, c: Seq<char>)
    requires
        !text_less(a, b),
        !text_less(b, c),
    ensures
        !text_less(a, c),
{
    if text_less(a, c) {
        lemma_text_less_total(a, b);
        if text_less(b, a) {
            lemma_text_less_transitive(b, a, c);
        }
    }
}

/// Entries whose keys never decrease.
pub open spec fn ordered_by_key(s: Seq<(Seq<char>, Seq<char>)>) -> bool {
    forall|i: int, j: int|
        0 <= i < j < s.len() ==> !text_less(#[trigger] entry_key(s[j]), #[trigger] entry_key(s[i]))
}

/// Inserting keeps every entry and adds `x`.
proof fn lemma_insert_multiset(s: Seq<(Seq<char>, Seq<char>)>, x: (Seq<char>, Seq<char>))
    ensures
        insert_by_key(s, x).to_multiset() == s.to_multiset().insert(x),
    decreases s.len(),
{
    broadcast use vstd::seq_lib::group_to_multiset_ensures;
    if s.len() > 0 && text_less(entry_key(x), entry_key(s.last())) {
        lemma_insert_multiset(s.drop_last(), x);
        assert(s =~= s.drop_last().push(s.last()));
        assert(insert_by_key(s.drop_last(), x).push(s.last()).to_multiset() =~= s.to_multiset().insert(x));
    }
}

/// Inserting into ordered entries keeps them ordered.
proof fn lemma_insert_ordered(s: Seq<(Seq<char>, Seq<char>)>, x: (Seq<char>, Seq<char>))
    requires
        ordered_by_key(s),
    ensures
        ordered_by_key(insert_by_key(s, x)),
    decreases s.len(),
{
    broadcast use vstd::seq_lib::group_to_multiset_ensures;
    let r = insert_by_key(s, x);
    if s.len() > 0 && text_less(entry_key(x), entry_key(s.last())) {
        let d = s.drop_last();
        let l = s.last();
        assert(ordered_by_key(d));
        lemma_insert_ordered(d, x);
        lemma_insert_multiset(d, x);
        let inner = insert_by_key(d, x);
        assert forall|i: int, j: int| 0 <= i < j < r.len() implies !text_less(
            #[trigger] entry_key(r[j]),
            #[trigger] entry_key(r[i]),
        ) by {
            if j == r.len() - 1 {
                let e = inner[i];
                assert(inner.to_multiset().count(e) > 0);
                assert(d.to_multiset().insert(x).count(e) > 0);
                if e == x {
                    lemma_text_less_irreflexive(entry_key(l));
                    assert(!text_less(entry_key(l), entry_key(x))) by {
                        if text_less(entry_key(l), entry_key(x)) {
                            lemma_text_less_transitive(entry_key(l), entry_key(x), entry_key(l));
                        }
                    }
                } else {
                    assert(d.to_multiset().count(e) > 0);
                    assert(d.contains(e));
                    let k = choose|k: int| 0 <= k < d.len() && d[k] == e;
                    assert(s[k] == e);
                    assert(!text_less(entry_key(s[s.len() - 1]), entry_key(s[k])));
                }
            } else {
                assert(r[i] == inner[i] && r[j] == inner[j]);
            }
        }
    } else {
        assert forall|i: int, j: int| 0 <= i < j < r.len() implies !text_less(
            #[trigger] entry_key(r[j]),
            #[trigger] entry_key(r[i]),
        ) by {
            if j == r.len() - 1 {
                if s.len() > 0 {
                    assert(!text_less(entry_key(s[s.len() - 1]), entry_key(s[i])) || i == s.len() - 1);
                    lemma_text_less_irreflexive(entry_key(s[i]));
                    lemma_not_less_transitive(entry_key(x), entry_key(s[s.len() - 1]), entry_key(s[i]));
                }
            } else {
                assert(r[i] == s[i] && r[j] == s[j]);
            }
        }
    }
}

/// Sorting keeps exactly the entries given, and orders them by key.
pub proof fn lemma_sort_by_key_sorts(s: Seq<(Seq<char>, Seq<char>)>)
    ensures
        sort_by_key(s).to_multiset() == s.to_multiset(),
        ordered_by_key(sort_by_key(s)),
    decreases s.len(),
{
    broadcast use vstd::seq_lib::group_to_multiset_ensures;
    if s.len() > 0 {
        lemma_sort_by_key_sorts(s.drop_last());
        lemma_insert_multiset(sort_by_key(s.drop_last()), s.last());
        lemma_insert_ordered(sort_by_key(s.drop_last()), s.last());
        assert(s =~= s.drop_last().push(s.last()));
    }
}

/// A listing holds exactly the entries named by its chunks, ordered by
/// lowercase name.
pub proof fn lemma_directory_listing_ordered(stdout: Seq<u8>)
    ensures
        directory_listing(stdout).to_multiset() == listed_entries(split_nul(stdout)).to_multiset(),
        ordered_by_key(directory_listing(stdout)),
{
    lemma_sort_by_key_sorts(listed_entries(split_nul(stdout)));
}

/// An entry's shape: the path does not end in `/`, and the name is the
/// whole last `/`-separated component of the path: it has no `/`, it ends
/// the path, and what comes before it is empty or ends in `/`.
pub open spec fn entry_well_formed(e: (Seq<char>, Seq<char>)) -> bool {
    let (name, path) = e;
    &&& !(path.len() > 0 && path.last() == '/')
    &&& !name.contains('/')
    &&& name.len() <= path.len()
    &&& path.subrange(path.len() - name.len(), path.len() as int) == name
    &&& (name.len() == path.len() || path[path.len() - name.len() - 1] == '/')
}

proof fn lemma_strip_shape(s: Seq<char>)
    ensures
        !(strip_trailing_slashes(s).len() > 0 && strip_trailing_slashes(s).last() == '/'),
        strip_trailing_slashes(s).len() <= s.len(),
        s.take(strip_trailing_slashes(s).len() as int) == strip_trailing_slashes(s),
        forall|k: int| strip_trailing_slashes(s).len() <= k < s.len() ==> #[trigger] s[k] == '/',
    decreases s.len(),
{
    if s.len() > 0 && s.last() == '/' {
        let d = s.drop_last();
        lemma_strip_shape(d);
        let p = strip_trailing_slashes(d);
        assert(s.take(p.len() as int) =~= d.take(p.len() as int));
        assert forall|k: int| p.len() <= k < s.len() implies #[trigger] s[k] == '/' by {
            if k < d.len() {
                assert(s[k] == d[k]);
            }
        }
    } else {
        assert(s.take(s.len() as int) =~= s);
    }
}

proof fn lemma_last_component_shape(s: Seq<char>)
    ensures
        !last_component(s).contains('/'),
        last_component(s).len() <= s.len(),
        s.subrange(s.len() - last_component(s).len(), s.len() as int) == last_component(s),
        last_component(s).len() == s.len() || s[s.len() - last_component(s).len() - 1] == '/',
    decreases s.len(),
{
    if s.len() == 0 || s.last() == '/' {
        assert(s.subrange(s.len() as int, s.len() as int) =~= Seq::<char>::empty());
    } else {
        let d = s.drop_last();
        lemma_last_component_shape(d);
        let c = last_component(d);
        assert(s.subrange(s.len() - (c.len() + 1), s.len() as int) =~= d.subrange(
            d.len() - c.len(),
            d.len() as int,
        ).push(s.last()));
        assert forall|k: int| 0 <= k < c.push(s.last()).len() implies c.push(s.last())[k] != '/' by {
            if k < c.len() {
                assert(!c.contains('/'));
                assert(c.push(s.last())[k] == c[k]);
            }
        }
        if c.len() < d.len() {
            assert(s[s.len() - (c.len() + 1) - 1] == d[d.len() - c.len() - 1]);
        }
    }
}

/// What one listed path becomes: its path is the text without its trailing
/// `/` characters (only `/` is removed, and none is left at the end), and
/// its name is the whole last component of that path.
pub proof fn lemma_entry_of_shape(text: Seq<char>)
    ensures
        ({
            let (name, path) = entry_of(text);
            &&& path.len() <= text.len()
            &&& text.take(path.len() as int) == path
            &&& forall|k: int| path.len() <= k < text.len() ==> #[trigger] text[k] == '/'
            &&& entry_well_formed((name, path))
        }),
{
    lemma_strip_shape(text);
    lemma_last_component_shape(strip_trailing_slashes(text));
}

proof fn lemma_listed_well_formed(chunks: Seq<Seq<u8>>)
    ensures
        forall|i: int|
            0 <= i < listed_entries(chunks).len() ==> entry_well_formed(
                #[trigger] listed_entries(chunks)[i],
            ),
    decreases chunks.len(),
{
    if chunks.len() > 0 {
        let earlier = listed_entries(chunks.drop_last());
        lemma_listed_well_formed(chunks.drop_last());
        if names_entry(chunks.last()) {
            let text = decode_utf8(chunks.last());
            lemma_strip_shape(text);
            lemma_last_component_shape(strip_trailing_slashes(text));
            let e = entry_of(text);
            assert(entry_well_formed(e));
            assert forall|i: int| 0 <= i < earlier.push(e).len() implies entry_well_formed(
                #[trigger] earlier.push(e)[i],
            ) by {
                if i < earlier.len() {
                    assert(earlier.push(e)[i] == earlier[i]);
                }
            }
        }
    }
}

/// Every entry of a listing has a path without trailing `/` and a name
/// without `/` that ends its path.
pub proof fn lemma_directory_entries_well_formed(stdout: Seq<u8>)
    ensures
        forall|i: int|
            0 <= i < directory_listing(stdout).len() ==> entry_well_formed(
                #[trigger] directory_listing(stdout)[i],
            ),
{
    broadcast use vstd::seq_lib::group_to_multiset_ensures;
    let l = listed_entries(split_nul(stdout));
    let d = directory_listing(stdout);
    lemma_listed_well_formed(split_nul(stdout));
    lemma_sort_by_key_sorts(l);
    assert forall|i: int| 0 <= i < d.len() implies entry_well_formed(#[trigger] d[i]) by {
        assert(d.to_multiset().count(d[i]) > 0);
        assert(l.to_multiset().count(d[i]) > 0);
        assert(l.contains(d[i]));
        let k = choose|k: int| 0 <= k < l.len() && l[k] == d[i];
        assert(entry_well_formed(l[k]));
    }
}

/// Whether `a` comes strictly before `b`.
fn less_text(a: &Vec<char>, b: &Vec<char>) -> (r: bool)
    ensures
        r == text_less(a@, b@),
{
    let mut i: usize = 0;
    assert(a@.skip(0) =~= a@ && b@.skip(0) =~= b@);
    while i < a.len() && i < b.len() && a[i] == b[i]
        invariant
            i <= a.len(),
            i <= b.len(),
            text_less(a@, b@) == text_less(a@.skip(i as int), b@.skip(i as int)),
        decreases a.len() - i,
    {
        assert(a@.skip(i as int).drop_first() =~= a@.skip(i + 1));
        assert(b@.skip(i as int).drop_first() =~= b@.skip(i + 1));
        i += 1;
    }
    if i == a.len() {
        i < b.len()
    } else if i == b.len() {
        false
    } else {
        (a[i] as u32) < (b[i] as u32)
    }
}

/// Inserting at `j` agrees with `insert_by_key` when every entry from `j`
/// on has a greater key and the one before `j` does not.
proof fn lemma_insert_at(s: Seq<(Seq<char>, Seq<char>)>, x: (Seq<char>, Seq<char>), j: int)
    requires
        0 <= j <= s.len(),
        forall|m: int| j <= m < s.len() ==> text_less(entry_key(x), #[trigger] entry_key(s[m])),
        j > 0 ==> !text_less(entry_key(x), entry_key(s[j - 1])),
    ensures
        insert_by_key(s, x) == s.take(j).push(x) + s.skip(j),
    decreases s.len(),
{
    if j == s.len() {
        assert(s.take(j).push(x) + s.skip(j) =~= s.push(x));
    } else {
        let d = s.drop_last();
        assert(text_less(entry_key(x), entry_key(s[s.len() - 1])));
        assert forall|m: int| j <= m < d.len() implies text_less(
            entry_key(x),
            #[trigger] entry_key(d[m]),
        ) by {
            assert(d[m] == s[m]);
        }
        if j > 0 {
            assert(d[j - 1] == s[j - 1]);
        }
        lemma_insert_at(d, x, j);
        assert(d.take(j).push(x) + d.skip(j) + seq![s.last()] =~= s.take(j).push(x) + s.skip(j));
    }
}

/// One more chunk either adds its entry, inserted by key, or leaves the
/// sorted entries as they were.
proof fn lemma_listed_push(done: Seq<Seq<u8>>, chunk: Seq<u8>)
    ensures
        names_entry(chunk) ==> sort_by_key(listed_entries(done.push(chunk))) == insert_by_key(
            sort_by_key(listed_entries(done)),
            entry_of(decode_utf8(chunk)),
        ),
        !names_entry(chunk) ==> sort_by_key(listed_entries(done.push(chunk))) == sort_by_key(
            listed_entries(done),
        ),
{
    assert(done.push(chunk).drop_last() =~= done);
    let l = listed_entries(done);
    if names_entry(chunk) {
        let e = entry_of(decode_utf8(chunk));
        assert(l.push(e).drop_last() =~= l);
    }
}

/// Inserts `e` (whose key is computed here) into the sorted entries.
fn insert_entry(
    sorted: &mut Vec<SshDirectoryEntry>,
    keys: &mut Vec<Vec<char>>,
    e: SshDirectoryEntry,
)
    requires
        old(keys)@.len() == old(sorted)@.len(),
        forall|m: int|
            0 <= m < old(keys)@.len() ==> #[trigger] old(keys)@[m]@ == entry_key(
                entry_view(old(sorted)@[m]),
            ),
    ensures
        final(keys)@.len() == final(sorted)@.len(),
        forall|m: int|
            0 <= m < final(keys)@.len() ==> #[trigger] final(keys)@[m]@ == entry_key(
                entry_view(final(sorted)@[m]),
            ),
        entry_views(final(sorted)@) == insert_by_key(entry_views(old(sorted)@), entry_view(e)),
{
    let lowered = to_lowercase(e.name.as_str());
    let key = chars_of(lowered.as_str());
    let ghost ev = entry_view(e);
    let ghost s = entry_views(sorted@);
    assert(key@ == entry_key(ev));
    let mut j = sorted.len();
    while j > 0 && less_text(&key, &keys[j - 1])
        invariant
            keys@.len() == sorted@.len(),
            j <= sorted.len(),
            s == entry_views(sorted@),
            key@ == entry_key(ev),
            forall|m: int|
                0 <= m < keys@.len() ==> #[trigger] keys@[m]@ == entry_key(entry_view(sorted@[m])),
            forall|m: int| j <= m < s.len() ==> text_less(entry_key(ev), #[trigger] entry_key(s[m])),
        decreases j,
    {
        assert(s[j - 1] == entry_view(sorted@[j - 1]));
        j -= 1;
    }
    proof {
        if j > 0 {
            assert(s[j - 1] == entry_view(sorted@[j - 1]));
        }
        lemma_insert_at(s, ev, j as int);
    }
    let ghost old_sorted = sorted@;
    let ghost old_keys = keys@;
    sorted.insert(j, e);
    keys.insert(j, key);
    assert(entry_views(sorted@) =~= s.take(j as int).push(ev) + s.skip(j as int));
    assert forall|m: int| 0 <= m < keys@.len() implies #[trigger] keys@[m]@ == entry_key(
        entry_view(sorted@[m]),
    ) by {
        if m < j {
            assert(keys@[m] == old_keys[m] && sorted@[m] == old_sorted[m]);
        } else if m > j {
            assert(keys@[m] == old_keys[m - 1] && sorted@[m] == old_sorted[m - 1]);
        }
    }
}

/// The entry for one listed path, decoded from its bytes.
fn entry_from_chunk(chunk: &[u8]) -> (r: Option<SshDirectoryEntry>)
    ensures
        names_entry(chunk@) ==> (r matches Some(e) && entry_view(e) == entry_of(
            decode_utf8(chunk@),
        )),
        !names_entry(chunk@) ==> r is None,
{
    if chunk.len() == 0 {
        return None;
    }
    let text = match decode_strict(chunk) {
        Some(t) => t,
        None => return None,
    };
    let v = chars_of(text.as_str());
    let mut j = v.len();
    assert(v@.take(v.len() as int) =~= v@);
    while j > 0 && v[j - 1] == '/'
        invariant
            j <= v.len(),
            strip_trailing_slashes(v@) == strip_trailing_slashes(v@.take(j as int)),
        decreases j,
    {
        assert(v@.take(j as int).drop_last() =~= v@.take(j - 1));
        j -= 1;
    }
    assert(v@.take(v.len() as int) =~= v@);
    let mut k = j;
    while k > 0 && v[k - 1] != '/'
        invariant
            k <= j <= v.len(),
            last_component(v@.take(j as int)) == last_component(v@.take(k as int))
                + v@.subrange(k as int, j as int),
        decreases k,
    {
        assert(v@.take(k as int).drop_last() =~= v@.take(k - 1));
        assert(last_component(v@.take(k - 1)).push(v@[k - 1]) + v@.subrange(k as int, j as int)
            =~= last_component(v@.take(k - 1)) + v@.subrange(k - 1, j as int));
        k -= 1;
    }
    assert(last_component(v@.take(k as int)) =~= Seq::<char>::empty());
    assert(Seq::<char>::empty() + v@.subrange(k as int, j as int) =~= v@.subrange(
        k as int,
        j as int,
    ));
    assert(v@.subrange(0, j as int) =~= v@.take(j as int));
    let name = string_of(&v, k, j);
    let path = string_of(&v, 0, j);
    Some(SshDirectoryEntry { name, path })
}

/// Reads a directory listing: a failed run gives the first line of its
/// error output; otherwise each NUL-separated, non-empty, valid UTF-8 path
/// becomes an entry, and the entries are stably ordered by lowercase name.
pub fn directory_entries(exited_successfully: bool, stdout: &[u8], stderr: &[u8]) -> (r: Result<
    Vec<SshDirectoryEntry>,
    String,
>)
    ensures
        !exited_successfully ==> (r matches Err(m) && m@ == first_line(utf8_lossy(stderr@))),
        exited_successfully ==> (r matches Ok(v) && entry_views(v@) == directory_listing(
            stdout@,
        )),
{
    if !exited_successfully {
        return Err(single_line(stderr));
    }
    let mut sorted: Vec<SshDirectoryEntry> = Vec::new();
    let mut keys: Vec<Vec<char>> = Vec::new();
    let mut current: Vec<u8> = Vec::new();
    let ghost mut done: Seq<Seq<u8>> = Seq::empty();
    let mut i: usize = 0;
    while i < stdout.len()
        invariant
            i <= stdout.len(),
            split_state(stdout@.take(i as int)) == (done, current@),
            keys@.len() == sorted@.len(),
            forall|m: int|
                0 <= m < keys@.len() ==> #[trigger] keys@[m]@ == entry_key(entry_view(sorted@[m])),
            entry_views(sorted@) == sort_by_key(listed_entries(done)),
        decreases stdout.len() - i,
    {
        let b = stdout[i];
        assert(stdout@.take(i + 1).drop_last() =~= stdout@.take(i as int));
        if b == 0 {
            let ghost chunk = current@;
            proof {
                lemma_listed_push(done, chunk);
            }
            match entry_from_chunk(current.as_slice()) {
                Some(e) => {
                    insert_entry(&mut sorted, &mut keys, e);
                },
                None => {},
            }
            proof {
                done = done.push(chunk);
            }
            current = Vec::new();
        } else {
            current.push(b);
        }
        i += 1;
    }
    let ghost chunk = current@;
    proof {
        lemma_listed_push(done, chunk);
    }
    match entry_from_chunk(current.as_slice()) {
        Some(e) => {
            insert_entry(&mut sorted, &mut keys, e);
        },
        None => {},
    }
    assert(stdout@.take(stdout.len() as int) =~= stdout@);
    Ok(sorted)
}

} // verus!
