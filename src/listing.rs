//! One directory's part of a traversal: which entries it keeps and in what
//! order, their canonical lines, and what the running digest absorbs.

use crate::digest::{RunningDigest, SHA256_MAX_BYTES};
use crate::runconfig::LshaRunConfig;
use crate::simpledir::{
    child_path,
    entry_text,
    is_dir_mode,
    is_hidden_name,
    is_regular_mode,
    pad_right,
    push_padded_str,
    EntryView,
    SimpleDir,
};
use vstd::multiset::Multiset;
use vstd::prelude::*;
use vstd::string::*;
use vstd::utf8::encode_utf8;

verus! {

/// Byte-wise order of names from position `i` on: the first differing
/// character decides, and a proper prefix comes first. For UTF-8 text the
/// order of code points is the order of the encoded bytes.
pub open spec fn name_le_from(a: Seq<char>, b: Seq<char>, i: int) -> bool
    decreases a.len() - i,
{
    if i >= a.len() {
        true
    } else if i >= b.len() {
        false
    } else if a[i] != b[i] {
        (a[i] as int) < (b[i] as int)
    } else {
        name_le_from(a, b, i + 1)
    }
}

/// `a` sorts no later than `b`.
pub open spec fn name_le(a: Seq<char>, b: Seq<char>) -> bool {
    name_le_from(a, b, 0)
}

/// What the library knows of each entry of a vector.
pub open spec fn views(s: Seq<SimpleDir>) -> Seq<EntryView> {
    s.map_values(|e: SimpleDir| e@)
}

/// Entries in ascending byte-wise order of their names.
pub open spec fn sorted_by_name(s: Seq<EntryView>) -> bool {
    forall|i: int, j: int| 0 <= i < j < s.len() ==> name_le(#[trigger] s[i].name, #[trigger] s[j].name)
}

/// An entry survives the hidden-file filter.
pub open spec fn keeps(incl_hidden: bool, e: EntryView) -> bool {
    incl_hidden || !is_hidden_name(e.name)
}

/// `r` is what the hidden-file filter keeps of `entries`, in ascending
/// byte-wise order of names.
pub open spec fn is_retention(entries: Seq<EntryView>, r: Seq<EntryView>, incl_hidden: bool) -> bool {
    &&& sorted_by_name(r)
    &&& forall|e: EntryView| #[trigger]
        r.to_multiset().count(e) == if keeps(incl_hidden, e) {
            entries.to_multiset().count(e)
        } else {
            0
        }
}

/// No two different entries share a name, as in one directory.
pub open spec fn names_identify(m: Multiset<EntryView>) -> bool {
    forall|x: EntryView, y: EntryView|
        #![trigger m.count(x), m.count(y)]
        m.count(x) > 0 && m.count(y) > 0 && x.name == y.name ==> x == y
}

/// The hash column of an entry that is not a regular file: sixteen groups
/// of a dot and three spaces.
pub open spec fn placeholder() -> Seq<char> {
    Seq::new(64, |i: int| if i % 4 == 0 { '.' } else { ' ' })
}

/// What stands in the hash column of a regular file whose contents could
/// not be read.
pub open spec fn unavailable() -> Seq<char> {
    seq!['N', '/', 'A']
}

/// A content hash as text, if there is one.
pub open spec fn opt_view(h: Option<String>) -> Option<Seq<char>> {
    match h {
        Some(s) => Some(s@),
        None => None,
    }
}

/// The hash column of an entry, 64 wide for any hash of at most 64 characters.
pub open spec fn hash_field(e: EntryView, hash: Option<Seq<char>>) -> Seq<char> {
    if is_regular_mode(e.mode) {
        match hash {
            Some(h) => pad_right(h, 64),
            None => pad_right(unavailable(), 64),
        }
    } else {
        placeholder()
    }
}

/// The canonical line of one retained entry.
pub open spec fn entry_line(e: EntryView, hash: Option<Seq<char>>, checksum: bool) -> Seq<char> {
    if checksum {
        hash_field(e, hash) + seq![' ', ' '] + entry_text(e) + seq!['\n']
    } else {
        entry_text(e) + seq!['\n']
    }
}

/// The lines of `entries` in order, the i-th with the i-th hash.
pub open spec fn listing_text(
    entries: Seq<EntryView>,
    hashes: Seq<Option<Seq<char>>>,
    checksum: bool,
) -> Seq<char>
    decreases entries.len(),
{
    if entries.len() == 0 {
        Seq::empty()
    } else {
        listing_text(entries.drop_last(), hashes.drop_last(), checksum) + entry_line(
            entries.last(),
            hashes.last(),
            checksum,
        )
    }
}

/// The paths of the directories among `entries`, in order.
pub open spec fn subdir_paths(parent: Seq<char>, entries: Seq<EntryView>) -> Seq<Seq<char>>
    decreases entries.len(),
{
    if entries.len() == 0 {
        Seq::empty()
    } else if is_dir_mode(entries.last().mode) {
        subdir_paths(parent, entries.drop_last()).push(child_path(parent, entries.last().name))
    } else {
        subdir_paths(parent, entries.drop_last())
    }
}

/// The header that announces a directory in a recursive run.
pub open spec fn header_text(path: Seq<char>) -> Seq<char> {
    seq!['\n'] + path + seq!['\n']
}

/// What the digest can no longer take: the canonical text would pass the
/// limit of the SHA-256 state.
#[derive(Debug, PartialEq, Eq, Structural)]
pub struct DigestFull;

/// What one directory's listing hands back: the text to print (empty in a
/// quiet run) and the subdirectories to visit next, in order.
pub struct DirListing {
    pub printed: String,
    pub subdirs: Vec<String>,
}

/// Feeds `st` into the digest; hands back what is to be printed: `st`,
/// or nothing in a quiet run.
pub fn put(sh: &mut RunningDigest, cfg: &LshaRunConfig, st: &String) -> (r: Result<String, DigestFull>)
    ensures
        r is Ok <==> old(sh)@.len() + encode_utf8(st@).len() < SHA256_MAX_BYTES,
        r is Ok ==> final(sh)@ == old(sh)@ + encode_utf8(st@),
        r is Err ==> final(sh)@ == old(sh)@,
        r matches Ok(p) ==> p@ == if cfg.be_quiet { Seq::<char>::empty() } else { st@ },
{
    if sh.absorb(st.as_str().as_bytes()) {
        if cfg.be_quiet {
            Ok(String::new())
        } else {
            Ok(st.clone())
        }
    } else {
        Err(DigestFull)
    }
}

/// The hash column of each retained entry, as the content hashes of a
/// directory make it.
pub open spec fn hash_views(hashes: Seq<Option<String>>) -> Seq<Option<Seq<char>>> {
    hashes.map_values(|h: Option<String>| opt_view(h))
}

/// The text of each path of a vector.
pub open spec fn path_views(paths: Seq<String>) -> Seq<Seq<char>> {
    paths.map_values(|p: String| p@)
}

/// Byte-wise order is total.
pub proof fn lemma_name_le_total(a: Seq<char>, b: Seq<char>, i: int)
    requires
        0 <= i,
    ensures
        name_le_from(a, b, i) || name_le_from(b, a, i),
    decreases a.len() - i,
{
    if i < a.len() && i < b.len() {
        if a[i] == b[i] {
            lemma_name_le_total(a, b, i + 1);
        } else {
            assert((a[i] as int) != (b[i] as int));
        }
    }
}

/// Byte-wise order is transitive.
pub proof fn lemma_name_le_trans(a: Seq<char>, b: Seq<char>, c: Seq<char>, i: int)
    requires
        0 <= i,
        name_le_from(a, b, i),
        name_le_from(b, c, i),
    ensures
        name_le_from(a, c, i),
    decreases a.len() - i,
{
    if i < a.len() && i < b.len() && i < c.len() && a[i] == b[i] && b[i] == c[i] {
        lemma_name_le_trans(a, b, c, i + 1);
    }
}

/// Names that sort no later than each other are equal.
pub proof fn lemma_name_le_antisymmetric(a: Seq<char>, b: Seq<char>, i: int)
    requires
        0 <= i <= a.len(),
        i <= b.len(),
        name_le_from(a, b, i),
        name_le_from(b, a, i),
    ensures
        a.subrange(i, a.len() as int) == b.subrange(i, b.len() as int),
    decreases a.len() - i,
{
    if i < a.len() && i < b.len() {
        if a[i] == b[i] {
            lemma_name_le_antisymmetric(a, b, i + 1);
            assert(a.subrange(i, a.len() as int) =~= seq![a[i]] + a.subrange(i + 1, a.len() as int));
            assert(b.subrange(i, b.len() as int) =~= seq![b[i]] + b.subrange(i + 1, b.len() as int));
        } else {
            assert((a[i] as int) != (b[i] as int));
        }
    } else {
        assert(a.subrange(i, a.len() as int) =~= b.subrange(i, b.len() as int));
    }
}

/// Two name-sorted sequences with the same entries, no two of which share a
/// name, are the same sequence.
pub proof fn lemma_sorted_unique(ra: Seq<EntryView>, rb: Seq<EntryView>)
    requires
        sorted_by_name(ra),
        sorted_by_name(rb),
        ra.to_multiset() == rb.to_multiset(),
        names_identify(ra.to_multiset()),
    ensures
        ra == rb,
    decreases ra.len(),
{
    broadcast use vstd::seq_lib::group_to_multiset_ensures;

    if ra.len() == 0 || rb.len() == 0 {
        assert(ra.len() == ra.to_multiset().len());
        assert(rb.len() == rb.to_multiset().len());
        assert(ra =~= rb);
    } else {
        let x = ra[0];
        let y = rb[0];
        assert(ra.contains(x));
        assert(rb.contains(y));
        assert(rb.to_multiset().count(x) > 0);
        assert(ra.to_multiset().count(y) > 0);
        assert(rb.contains(x));
        assert(ra.contains(y));
        let j = choose|j: int| 0 <= j < rb.len() && rb[j] == x;
        let i = choose|i: int| 0 <= i < ra.len() && ra[i] == y;
        if i != 0 && j != 0 {
            assert(name_le(ra[0].name, ra[i].name));
            assert(name_le(rb[0].name, rb[j].name));
            lemma_name_le_antisymmetric(x.name, y.name, 0);
            assert(x.name.subrange(0, x.name.len() as int) =~= x.name);
            assert(y.name.subrange(0, y.name.len() as int) =~= y.name);
        }
        assert(x == y);
        let ta = ra.drop_first();
        let tb = rb.drop_first();
        assert(ra.remove(0) =~= ta);
        assert(rb.remove(0) =~= tb);
        vstd::seq_lib::to_multiset_remove(ra, 0);
        vstd::seq_lib::to_multiset_remove(rb, 0);
        assert(sorted_by_name(ta)) by {
            assert forall|p: int, q: int| 0 <= p < q < ta.len() implies name_le(
                #[trigger] ta[p].name,
                #[trigger] ta[q].name,
            ) by {
                assert(ta[p] == ra[p + 1] && ta[q] == ra[q + 1]);
            }
        }
        assert(sorted_by_name(tb)) by {
            assert forall|p: int, q: int| 0 <= p < q < tb.len() implies name_le(
                #[trigger] tb[p].name,
                #[trigger] tb[q].name,
            ) by {
                assert(tb[p] == rb[p + 1] && tb[q] == rb[q + 1]);
            }
        }
        assert(names_identify(ta.to_multiset())) by {
            assert forall|u: EntryView, v: EntryView|
                ta.to_multiset().count(u) > 0 && ta.to_multiset().count(v) > 0 && u.name
                    == v.name implies u == v by {
                assert(ra.to_multiset().count(u) > 0);
                assert(ra.to_multiset().count(v) > 0);
            }
        }
        lemma_sorted_unique(ta, tb);
        assert(ra =~= seq![x] + ta);
        assert(rb =~= seq![y] + tb);
    }
}

/// Determinism: what a directory keeps, in what order, and so its canonical
/// text and what the digest absorbs for it, do not depend on the order in
/// which the entries were listed.
pub proof fn lemma_listing_order_irrelevant(
    a: Seq<EntryView>,
    b: Seq<EntryView>,
    ra: Seq<EntryView>,
    rb: Seq<EntryView>,
    incl_hidden: bool,
)
    requires
        a.to_multiset() == b.to_multiset(),
        names_identify(a.to_multiset()),
        is_retention(a, ra, incl_hidden),
        is_retention(b, rb, incl_hidden),
    ensures
        ra == rb,
        forall|h: Seq<Option<Seq<char>>>, checksum: bool|
            #[trigger] listing_text(ra, h, checksum) == listing_text(rb, h, checksum),
{
    assert(ra.to_multiset() =~= rb.to_multiset());
    lemma_sorted_unique(ra, rb);
}

/// Hidden-file filter: without `incl_hidden`, a dotfile added to a directory
/// leaves what it keeps, and so its canonical text, unchanged; with it, the
/// dotfile is kept beside everything that was kept before.
pub proof fn lemma_hidden_entry(
    a: Seq<EntryView>,
    d: EntryView,
    ra: Seq<EntryView>,
    rd: Seq<EntryView>,
    incl_hidden: bool,
)
    requires
        is_hidden_name(d.name),
        names_identify(a.to_multiset()),
        is_retention(a, ra, incl_hidden),
        is_retention(a.push(d), rd, incl_hidden),
    ensures
        !incl_hidden ==> ra == rd,
        !incl_hidden ==> forall|h: Seq<Option<Seq<char>>>, checksum: bool|
            #[trigger] listing_text(ra, h, checksum) == listing_text(rd, h, checksum),
        incl_hidden ==> rd.to_multiset() == ra.to_multiset().insert(d),
{
    vstd::seq_lib::to_multiset_build(a, d);
    if incl_hidden {
        assert(rd.to_multiset() =~= ra.to_multiset().insert(d));
    } else {
        assert(ra.to_multiset() =~= rd.to_multiset());
        assert(names_identify(ra.to_multiset())) by {
            assert forall|u: EntryView, v: EntryView|
                ra.to_multiset().count(u) > 0 && ra.to_multiset().count(v) > 0 && u.name
                    == v.name implies u == v by {
                assert(a.to_multiset().count(u) > 0);
                assert(a.to_multiset().count(v) > 0);
            }
        }
        lemma_sorted_unique(ra, rd);
    }
}

/// Placeholder alignment: with content hashing on, the hash column is 64
/// characters wide for an entry that is no regular file, for a file that
/// could not be read, and for a file with any hash of at most 64 characters
/// (a digest has exactly 64).
pub proof fn lemma_hash_field_width(e: EntryView, hash: Option<Seq<char>>)
    requires
        hash matches Some(h) ==> h.len() <= 64,
    ensures
        hash_field(e, hash).len() == 64,
        entry_line(e, hash, true).subrange(0, 64) == hash_field(e, hash),
        entry_line(e, hash, true).subrange(64, 66) == seq![' ', ' '],
{
    let line = entry_line(e, hash, true);
    assert(line.subrange(0, 64) =~= hash_field(e, hash));
    assert(line.subrange(64, 66) =~= seq![' ', ' ']);
}

/// Recursion toggle: a walk visits its root first. From the same digest
/// state, a flat run feeds the root's listing alone (it schedules no
/// subdirectory), while a recursive run feeds the root's header, never
/// empty, then the very same listing, then whatever its subdirectories add.
/// The two runs absorb different byte sequences.
pub proof fn lemma_recursion_toggle(
    start: Seq<u8>,
    path: Seq<char>,
    listing: Seq<char>,
    subtrees: Seq<u8>,
)
    ensures
        start + encode_utf8(header_text(path)) + encode_utf8(listing) + subtrees != start
            + encode_utf8(listing),
{
    let h = header_text(path);
    assert(h[0] == '\n');
    assert(encode_utf8(h).len() > 0);
    assert((start + encode_utf8(h) + encode_utf8(listing) + subtrees).len() > (start
        + encode_utf8(listing)).len());
}

proof fn lemma_insert_to_multiset<A>(s: Seq<A>, i: int, a: A)
    requires
        0 <= i <= s.len(),
    ensures
        s.insert(i, a).to_multiset() =~= s.to_multiset().insert(a),
{
    broadcast use vstd::seq_lib::group_to_multiset_ensures;

    let t = s.insert(i, a);
    assert(t.remove(i) =~= s);
    vstd::seq_lib::to_multiset_remove(t, i);
    assert(t.contains(a)) by {
        assert(t[i] == a);
    }
}

/// Whether name `a` sorts no later than name `b`, byte-wise.
pub fn name_precedes(a: &str, b: &str) -> (r: bool)
    ensures
        r == name_le(a@, b@),
{
    let la = a.unicode_len();
    let lb = b.unicode_len();
    let mut i: usize = 0;
    while i < la && i < lb
        invariant
            i <= la,
            i <= lb,
            la == a@.len(),
            lb == b@.len(),
            name_le(a@, b@) == name_le_from(a@, b@, i as int),
        decreases la - i,
    {
        let ca = a.get_char(i);
        let cb = b.get_char(i);
        if ca != cb {
            return (ca as u32) < (cb as u32);
        }
        i = i + 1;
    }
    i >= la
}

/// The entries that survive the hidden-file filter, in ascending byte-wise
/// order of their names.
pub fn retained_entries(entries: Vec<SimpleDir>, cfg: &LshaRunConfig) -> (r: Vec<SimpleDir>)
    ensures
        is_retention(views(entries@), views(r@), cfg.incl_hidden),
{
    broadcast use vstd::seq_lib::group_to_multiset_ensures;

    let ghost orig = views(entries@);
    let mut rest = entries;
    let mut r: Vec<SimpleDir> = Vec::new();
    let ghost mut done = Multiset::<EntryView>::empty();
    assert(views(r@).to_multiset() =~= Multiset::empty());
    assert(orig.to_multiset() =~= views(rest@).to_multiset().add(done));
    while rest.len() > 0
        invariant
            sorted_by_name(views(r@)),
            orig.to_multiset() == views(rest@).to_multiset().add(done),
            forall|e: EntryView| #[trigger]
                views(r@).to_multiset().count(e) == if keeps(cfg.incl_hidden, e) {
                    done.count(e)
                } else {
                    0
                },
        decreases rest.len(),
    {
        let ghost before = views(rest@);
        let x = rest.pop().unwrap();
        proof {
            assert(before =~= views(rest@).push(x@));
            vstd::seq_lib::to_multiset_build(views(rest@), x@);
            done = done.insert(x@);
            assert(orig.to_multiset() =~= views(rest@).to_multiset().add(done));
        }
        if cfg.incl_hidden || !x.is_hidden() {
            let mut p: usize = 0;
            while p < r.len()
                invariant
                    p <= r.len(),
                    forall|k: int| 0 <= k < p ==> name_le(#[trigger] views(r@)[k].name, x@.name),
                ensures
                    p <= r.len(),
                    forall|k: int| 0 <= k < p ==> name_le(#[trigger] views(r@)[k].name, x@.name),
                    p < r.len() ==> !name_le(views(r@)[p as int].name, x@.name),
                decreases r.len() - p,
            {
                if !name_precedes(r[p].fname().as_str(), x.fname().as_str()) {
                    break;
                }
                p = p + 1;
            }
            let ghost old_r = views(r@);
            let ghost xv = x@;
            r.insert(p, x);
            proof {
                let nr = views(r@);
                assert(nr =~= old_r.insert(p as int, xv));
                lemma_insert_to_multiset(old_r, p as int, xv);
                if p < old_r.len() {
                    lemma_name_le_total(old_r[p as int].name, xv.name, 0);
                }
                assert forall|i: int, j: int| 0 <= i < j < nr.len() implies name_le(
                    #[trigger] nr[i].name,
                    #[trigger] nr[j].name,
                ) by {
                    if j == p {
                    } else if i == p {
                        if j - 1 > p {
                            lemma_name_le_trans(xv.name, old_r[p as int].name, old_r[j - 1].name, 0);
                        }
                    } else {
                    }
                }
            }
        }
    }
    assert(views(rest@).to_multiset() =~= Multiset::empty());
    assert(orig.to_multiset() =~= done);
    r
}

fn push_entry_line(text: &mut String, sd: &SimpleDir, hash: &Option<String>, checksum: bool)
    ensures
        final(text)@ == old(text)@ + entry_line(sd@, opt_view(*hash), checksum),
{
    proof {
        reveal_strlit("N/A");
        reveal_strlit(".   .   .   .   .   .   .   .   .   .   .   .   .   .   .   .   ");
        reveal_strlit("  ");
        reveal_strlit("\n");
    }
    if checksum {
        if sd.is_regular_file() {
            match hash {
                Some(h) => push_padded_str(text, h.as_str(), 64),
                None => push_padded_str(text, "N/A", 64),
            }
        } else {
            let dots = ".   .   .   .   .   .   .   .   .   .   .   .   .   .   .   .   ";
            assert(dots@ =~= placeholder());
            text.append(dots);
        }
        text.append("  ");
    }
    let s = sd.dump_as_string();
    text.append(s.as_str());
    text.append("\n");
    assert(unavailable() =~= "N/A"@);
    assert(final(text)@ =~= old(text)@ + entry_line(sd@, opt_view(*hash), checksum));
}

/// For each retained entry, the path whose contents are to be hashed: that
/// of each regular file when contents are checksummed, and none otherwise.
pub fn content_hash_targets(path: &str, retained: &Vec<SimpleDir>, cfg: &LshaRunConfig) -> (r: Vec<Option<String>>)
    ensures
        r.len() == retained.len(),
        forall|i: int| 0 <= i < r.len() ==> #[trigger] opt_view(r@[i]) == if cfg.do_file_checksum
            && is_regular_mode(retained@[i]@.mode) {
            Some(child_path(path@, retained@[i]@.name))
        } else {
            None
        },
{
    let mut r: Vec<Option<String>> = Vec::new();
    let mut i: usize = 0;
    while i < retained.len()
        invariant
            i <= retained.len(),
            r.len() == i,
            forall|k: int| 0 <= k < i ==> #[trigger] opt_view(r@[k]) == if cfg.do_file_checksum
                && is_regular_mode(retained@[k]@.mode) {
                Some(child_path(path@, retained@[k]@.name))
            } else {
                None
            },
        decreases retained.len() - i,
    {
        if cfg.do_file_checksum && retained[i].is_regular_file() {
            r.push(Some(retained[i].append_fname_to(path)));
        } else {
            r.push(None);
        }
        i = i + 1;
    }
    r
}

/// Announces directory `path`: in a recursive run its header goes into the
/// digest (and is handed back for printing unless the run is quiet); in a
/// flat run nothing happens.
pub fn directory_header(sh: &mut RunningDigest, path: &str, cfg: &LshaRunConfig) -> (r: Result<String, DigestFull>)
    ensures
        !cfg.be_recursive ==> final(sh)@ == old(sh)@ && (r matches Ok(p) && p@.len() == 0),
        cfg.be_recursive ==> (r is Ok <==> old(sh)@.len() + encode_utf8(header_text(path@)).len()
            < SHA256_MAX_BYTES),
        cfg.be_recursive && r is Ok ==> final(sh)@ == old(sh)@ + encode_utf8(header_text(path@)),
        r is Err ==> final(sh)@ == old(sh)@,
        cfg.be_recursive ==> (r matches Ok(p) ==> p@ == if cfg.be_quiet {
            Seq::<char>::empty()
        } else {
            header_text(path@)
        }),
{
    if !cfg.be_recursive {
        return Ok(String::new());
    }
    proof {
        reveal_strlit("\n");
    }
    let mut st = String::new();
    st.append("\n");
    st.append(path);
    st.append("\n");
    assert(st@ =~= header_text(path@));
    put(sh, cfg, &st)
}

/// Lists one directory, given its retained entries in order and the content
/// hash of each (as `content_hash_targets` asked for them; `None` for a file
/// that could not be read). The canonical lines go into the digest; what
/// comes back is the text to print and, in a recursive run, the directories
/// to visit next.
pub fn emit_listing(
    sh: &mut RunningDigest,
    path: &str,
    retained: &Vec<SimpleDir>,
    hashes: &Vec<Option<String>>,
    cfg: &LshaRunConfig,
) -> (r: Result<DirListing, DigestFull>)
    requires
        hashes.len() == retained.len(),
        forall|i: int|
            0 <= i < hashes.len() ==> (#[trigger] hashes@[i] matches Some(h) ==> h@.len() <= 64),
    ensures
        r is Ok <==> old(sh)@.len() + encode_utf8(
            listing_text(views(retained@), hash_views(hashes@), cfg.do_file_checksum),
        ).len() < SHA256_MAX_BYTES,
        r is Ok ==> final(sh)@ == old(sh)@ + encode_utf8(
            listing_text(views(retained@), hash_views(hashes@), cfg.do_file_checksum),
        ),
        r is Err ==> final(sh)@ == old(sh)@,
        r matches Ok(out) ==> out.printed@ == if cfg.be_quiet {
            Seq::<char>::empty()
        } else {
            listing_text(views(retained@), hash_views(hashes@), cfg.do_file_checksum)
        },
        r matches Ok(out) ==> path_views(out.subdirs@) == if cfg.be_recursive {
            subdir_paths(path@, views(retained@))
        } else {
            Seq::<Seq<char>>::empty()
        },
{
    let ghost ev = views(retained@);
    let ghost hv = hash_views(hashes@);
    let mut text = String::new();
    let mut subdirs: Vec<String> = Vec::new();
    let mut i: usize = 0;
    assert(ev.take(0) =~= Seq::<EntryView>::empty());
    assert(path_views(subdirs@) =~= Seq::<Seq<char>>::empty());
    while i < retained.len()
        invariant
            i <= retained.len(),
            hashes.len() == retained.len(),
            ev == views(retained@),
            hv == hash_views(hashes@),
            text@ == listing_text(ev.take(i as int), hv.take(i as int), cfg.do_file_checksum),
            path_views(subdirs@) == if cfg.be_recursive {
                subdir_paths(path@, ev.take(i as int))
            } else {
                Seq::<Seq<char>>::empty()
            },
        decreases retained.len() - i,
    {
        push_entry_line(&mut text, &retained[i], &hashes[i], cfg.do_file_checksum);
        let ghost old_subdirs = path_views(subdirs@);
        if cfg.be_recursive && retained[i].is_dir() {
            subdirs.push(retained[i].append_fname_to(path));
            assert(path_views(subdirs@) =~= old_subdirs.push(child_path(path@, ev[i as int].name)));
        }
        i = i + 1;
        assert(ev.take(i as int).drop_last() =~= ev.take(i - 1));
        assert(hv.take(i as int).drop_last() =~= hv.take(i - 1));
    }
    assert(ev.take(i as int) =~= ev);
    assert(hv.take(i as int) =~= hv);
    match put(sh, cfg, &text) {
        Ok(printed) => Ok(DirListing { printed, subdirs }),
        Err(e) => Err(e),
    }
}

} // verus!
