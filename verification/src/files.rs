//! Which files of a directory are uploaded, and in which order.
use crate::order::{
    ascending, distinct_keys, keyed, lemma_sort_entries, sort_by_key, sort_entries,
};
use crate::text::{ends_with, texts};
use vstd::hash_set::StringHashSet;
use vstd::prelude::*;

verus! {

/// Whether a file name is that of an OTLP capture.
pub open spec fn is_otlp_name(name: Seq<char>) -> bool {
    ".otlp.json"@.is_suffix_of(name) || ".otlp.proto.json"@.is_suffix_of(name)
}

/// The captures among some names.
pub open spec fn otlp_names(names: Seq<Seq<char>>) -> Seq<Seq<char>> {
    names.filter(|name: Seq<char>| is_otlp_name(name))
}

/// A list of names as entries that hold nothing but their key.
pub open spec fn name_entries(names: Seq<Seq<char>>) -> Seq<(Seq<char>, ())> {
    Seq::new(names.len(), |i: int| (names[i], ()))
}

/// The keys of some entries.
pub open spec fn entry_names(entries: Seq<(Seq<char>, ())>) -> Seq<Seq<char>> {
    Seq::new(entries.len(), |i: int| entries[i].0)
}

/// The captures among the names in a directory, in dictionary order.
pub open spec fn selected(names: Seq<Seq<char>>) -> Seq<Seq<char>> {
    entry_names(sort_entries(name_entries(otlp_names(names))))
}

/// Whether a file name is that of an OTLP capture.
pub fn is_otlp_file(name: &str) -> (r: bool)
    ensures
        r == is_otlp_name(name@),
{
    ends_with(name, ".otlp.json") || ends_with(name, ".otlp.proto.json")
}

/// The captures among the names in a directory, in dictionary order.
pub fn select_otlp_files(names: Vec<String>) -> (r: Vec<String>)
    ensures
        texts(r@) == selected(texts(names@)),
{
    let ghost all = texts(names@);
    let mut kept: Vec<(String, ())> = Vec::new();
    assert(all.take(0) =~= Seq::empty());
    reveal(Seq::filter);
    assert(keyed(kept@) =~= name_entries(otlp_names(all.take(0))));
    for name in it: names
        invariant
            it.seq() == names@,
            all == texts(names@),
            keyed(kept@) == name_entries(otlp_names(all.take(it.index()))),
    {
        let ghost before = keyed(kept@);
        reveal(Seq::filter);
        assert(all.take(it.index() + 1).drop_last() =~= all.take(it.index()));
        assert(all.take(it.index() + 1).last() == name@);
        if is_otlp_file(name.as_str()) {
            kept.push((name, ()));
            assert(keyed(kept@) =~= before.push((name@, ())));
            assert(keyed(kept@) =~= name_entries(otlp_names(all.take(it.index())).push(name@)));
        }
    }
    assert(all.take(all.len() as int) =~= all);
    let sorted = sort_by_key(kept);
    let ghost want = sort_entries(name_entries(otlp_names(all)));
    let mut out: Vec<String> = Vec::new();
    for entry in it: sorted
        invariant
            it.seq() == sorted@,
            keyed(sorted@) == want,
            texts(out@) == entry_names(want).take(it.index()),
    {
        assert(keyed(sorted@)[it.index()].0 == entry.0@);
        let ghost before = texts(out@);
        out.push(entry.0);
        assert(texts(out@) =~= before.push(entry.0@));
        assert(entry_names(want).take(it.index() + 1) =~= before.push(entry.0@));
    }
    assert(entry_names(want).take(want.len() as int) =~= entry_names(want));
    out
}

/// Exactly the captures of a directory are selected, each once and in dictionary order.
pub proof fn law_selection_is_sorted_and_complete(names: Seq<Seq<char>>)
    requires
        names.no_duplicates(),
    ensures
        ascending(name_entries(selected(names))),
        forall|name: Seq<char>| #[trigger]
            selected(names).contains(name) <==> (names.contains(name) && is_otlp_name(name)),
{
    let keep = |name: Seq<char>| is_otlp_name(name);
    let kept = names.filter(keep);
    let entries = name_entries(kept);
    let sorted = sort_entries(entries);
    lemma_filter_distinct(names, keep);
    lemma_sort_entries(entries);
    assert(distinct_keys(entries)) by {
        assert forall|i: int, j: int| 0 <= i < j < entries.len() implies (#[trigger] entries[i]).0
            != (#[trigger] entries[j]).0 by {
            assert(kept[i] != kept[j]);
        }
    }
    assert(otlp_names(names) == kept);
    assert(name_entries(selected(names)) =~= sorted) by {
        assert forall|i: int| 0 <= i < sorted.len() implies name_entries(selected(names))[i]
            == sorted[i] by {
            assert(sorted[i].1 == ());
        }
    }
    assert forall|name: Seq<char>| #[trigger] selected(names).contains(name) <==> (names.contains(
        name,
    ) && is_otlp_name(name)) by {
        let e = (name, ());
        if selected(names).contains(name) {
            let k = selected(names).index_of(name);
            assert(sorted[k] == e);
            assert(sorted.contains(e));
            let i = entries.index_of(e);
            assert(kept[i] == name);
            assert(kept.contains(name));
            names.lemma_filter_contains_rev(keep, name);
        }
        if names.contains(name) && is_otlp_name(name) {
            let i = names.index_of(name);
            names.lemma_filter_contains(keep, i);
            let k = kept.index_of(name);
            assert(entries[k] == e);
            assert(entries.contains(e));
            assert(sorted.contains(e));
            assert(selected(names)[sorted.index_of(e)] == name);
        }
    }
}

/// Filtering a list without repetitions leaves none.
proof fn lemma_filter_distinct<A>(s: Seq<A>, keep: spec_fn(A) -> bool)
    requires
        s.no_duplicates(),
    ensures
        s.filter(keep).no_duplicates(),
    decreases s.len(),
{
    reveal(Seq::filter);
    if s.len() > 0 {
        let rest = s.drop_last();
        assert(rest.no_duplicates());
        lemma_filter_distinct(rest, keep);
        if keep(s.last()) {
            let f = rest.filter(keep);
            assert forall|i: int| 0 <= i < f.len() implies f[i] != s.last() by {
                assert(f.contains(f[i]));
                rest.lemma_filter_contains_rev(keep, f[i]);
                let k = rest.index_of(f[i]);
                assert(s[k] != s[s.len() - 1]);
            }
        }
    }
}

/// The files that a watcher has handed out.
pub struct Watcher {
    seen: StringHashSet,
}

impl View for Watcher {
    type V = Set<Seq<char>>;

    closed spec fn view(&self) -> Set<Seq<char>> {
        self.seen@
    }
}

/// The files of a scan that have not been seen before.
pub open spec fn unseen(seen: Set<Seq<char>>, files: Seq<Seq<char>>) -> Seq<Seq<char>> {
    files.filter(|file: Seq<char>| !seen.contains(file))
}

/// What has been seen after a scan.
pub open spec fn seen_after(seen: Set<Seq<char>>, files: Seq<Seq<char>>) -> Set<Seq<char>> {
    seen.union(files.to_set())
}

impl Watcher {
    /// A watcher that has seen nothing.
    pub fn new() -> (r: Self)
        ensures
            r@ == Set::<Seq<char>>::empty(),
    {
        Watcher { seen: StringHashSet::new() }
    }

    /// The files of a scan that are new, in the order of the scan. From here on they are known.
    pub fn fresh(&mut self, files: Vec<String>) -> (r: Vec<String>)
        ensures
            texts(r@) == unseen(old(self)@, texts(files@)),
            final(self)@ == seen_after(old(self)@, texts(files@)),
    {
        let ghost all = texts(files@);
        let ghost start = self.seen@;
        let ghost new = |file: Seq<char>| !start.contains(file);
        let mut out: Vec<String> = Vec::new();
        let mut i: usize = 0;
        assert(all.take(0) =~= Seq::empty());
        reveal(Seq::filter);
        assert(texts(out@) =~= all.take(0).filter(new));
        while i < files.len()
            invariant
                i <= files@.len(),
                all == texts(files@),
                new == (|file: Seq<char>| !start.contains(file)),
                self.seen@ == start,
                texts(out@) == all.take(i as int).filter(new),
            decreases files@.len() - i,
        {
            reveal(Seq::filter);
            assert(all.take(i + 1).drop_last() =~= all.take(i as int));
            assert(all.take(i + 1).last() == files@[i as int]@);
            if !self.seen.contains(files[i].as_str()) {
                let ghost before = texts(out@);
                out.push(files[i].clone());
                assert(texts(out@) =~= before.push(files@[i as int]@));
            }
            i = i + 1;
        }
        assert(all.take(all.len() as int) =~= all);
        let mut j: usize = 0;
        assert(self.seen@ =~= start.union(texts(out@).take(0).to_set()));
        while j < out.len()
            invariant
                j <= out@.len(),
                self.seen@ == start.union(texts(out@).take(j as int).to_set()),
            decreases out@.len() - j,
        {
            let ghost before = texts(out@).take(j as int);
            self.seen.insert(out[j].clone());
            proof {
                let after = texts(out@).take(j + 1);
                assert(after =~= before.push(out@[j as int]@));
                assert forall|x: Seq<char>| #[trigger]
                    after.contains(x) <==> (before.contains(x) || x == out@[j as int]@) by {
                    if before.contains(x) {
                        assert(after[before.index_of(x)] == x);
                    }
                    assert(after[j as int] == out@[j as int]@);
                    if after.contains(x) {
                        let k = after.index_of(x);
                        if k < j {
                            assert(before[k] == x);
                        }
                    }
                }
                assert(self.seen@ =~= start.union(after.to_set()));
            }
            j = j + 1;
        }
        proof {
            assert(texts(out@).take(out@.len() as int) =~= texts(out@));
            lemma_seen(start, all);
            assert(unseen(start, all) == all.filter(new));
        }
        out
    }
}

/// Noting the new files of a scan is noting all of them.
proof fn lemma_seen(seen: Set<Seq<char>>, files: Seq<Seq<char>>)
    ensures
        seen.union(unseen(seen, files).to_set()) == seen_after(seen, files),
{
    let new = |file: Seq<char>| !seen.contains(file);
    let f = files.filter(new);
    assert forall|x: Seq<char>| seen.union(f.to_set()).contains(x) == seen_after(
        seen,
        files,
    ).contains(x) by {
        if f.contains(x) {
            files.lemma_filter_contains_rev(new, x);
        }
        if files.contains(x) && !seen.contains(x) {
            files.lemma_filter_contains(new, files.index_of(x));
        }
    }
    assert(seen.union(f.to_set()) =~= seen_after(seen, files));
}

/// Scanning the same files again finds nothing new.
pub proof fn law_rescan_finds_nothing_new(seen: Set<Seq<char>>, files: Seq<Seq<char>>)
    ensures
        unseen(seen_after(seen, files), files).len() == 0,
{
    let after = seen_after(seen, files);
    let new = |file: Seq<char>| !after.contains(file);
    let f = files.filter(new);
    if f.len() > 0 {
        files.lemma_filter_pred(new, 0);
        assert(f.contains(f[0]));
        files.lemma_filter_contains_rev(new, f[0]);
        assert(files.to_set().contains(f[0]));
    }
}

/// What a watcher hands out over a series of scans.
pub open spec fn handed_out(scans: Seq<Seq<Seq<char>>>, seen: Set<Seq<char>>) -> Seq<Seq<char>>
    decreases scans.len(),
{
    if scans.len() == 0 {
        Seq::empty()
    } else {
        unseen(seen, scans[0]) + handed_out(scans.skip(1), seen_after(seen, scans[0]))
    }
}

/// Whether any of some scans shows a file.
pub open spec fn shown(scans: Seq<Seq<Seq<char>>>, file: Seq<char>) -> bool {
    exists|i: int| 0 <= i < scans.len() && (#[trigger] scans[i]).contains(file)
}

/// Over any series of scans, a watcher that starts afresh hands out every file that a scan shows,
/// and none of them twice.
pub proof fn law_each_file_is_handed_out_once(scans: Seq<Seq<Seq<char>>>)
    requires
        forall|i: int| 0 <= i < scans.len() ==> (#[trigger] scans[i]).no_duplicates(),
    ensures
        handed_out(scans, Set::empty()).no_duplicates(),
        forall|file: Seq<char>| #[trigger]
            handed_out(scans, Set::empty()).contains(file) <==> shown(scans, file),
{
    lemma_handed_out(scans, Set::empty());
}

proof fn lemma_handed_out(scans: Seq<Seq<Seq<char>>>, seen: Set<Seq<char>>)
    requires
        forall|i: int| 0 <= i < scans.len() ==> (#[trigger] scans[i]).no_duplicates(),
    ensures
        handed_out(scans, seen).no_duplicates(),
        forall|file: Seq<char>| #[trigger]
            handed_out(scans, seen).contains(file) <==> (shown(scans, file) && !seen.contains(
                file,
            )),
    decreases scans.len(),
{
    if scans.len() > 0 {
        let files = scans[0];
        let rest = scans.skip(1);
        let after = seen_after(seen, files);
        let new = |file: Seq<char>| !seen.contains(file);
        let now = files.filter(new);
        let later = handed_out(rest, after);
        let all = handed_out(scans, seen);
        assert(all == now + later);
        assert forall|i: int| 0 <= i < rest.len() implies (#[trigger] rest[i]).no_duplicates() by {
            assert(scans[i + 1].no_duplicates());
        }
        lemma_handed_out(rest, after);
        lemma_filter_distinct(files, new);
        assert forall|file: Seq<char>| now.contains(file) <==> (files.contains(file)
            && !seen.contains(file)) by {
            if now.contains(file) {
                files.lemma_filter_pred(new, now.index_of(file));
                files.lemma_filter_contains_rev(new, file);
            }
            if files.contains(file) && !seen.contains(file) {
                files.lemma_filter_contains(new, files.index_of(file));
            }
        }
        assert forall|i: int, j: int| 0 <= i < j < all.len() implies all[i] != all[j] by {
            if i < now.len() && j >= now.len() {
                assert(now.contains(now[i]));
                assert(files.to_set().contains(now[i]));
                assert(later.contains(later[j - now.len()]));
                assert(!after.contains(all[j]));
            }
        }
        assert forall|file: Seq<char>| #[trigger] all.contains(file) <==> (shown(scans, file)
            && !seen.contains(file)) by {
            if all.contains(file) {
                let k = all.index_of(file);
                if k < now.len() {
                    assert(now[k] == file);
                    assert(now.contains(file));
                    assert(scans[0].contains(file));
                } else {
                    assert(later[k - now.len()] == file);
                    assert(later.contains(file));
                    let i = choose|i: int|
                        0 <= i < rest.len() && (#[trigger] rest[i]).contains(file);
                    assert(scans[i + 1].contains(file));
                }
            }
            if shown(scans, file) && !seen.contains(file) {
                if files.contains(file) {
                    let k = now.index_of(file);
                    assert(all[k] == file);
                } else {
                    let i = choose|i: int|
                        0 <= i < scans.len() && (#[trigger] scans[i]).contains(file);
                    assert(rest[i - 1].contains(file));
                    assert(shown(rest, file));
                    assert(!after.contains(file));
                    assert(later.contains(file));
                    let k = later.index_of(file);
                    assert(all[now.len() + k] == file);
                }
            }
        }
    }
}

/// Every name with one of the two endings is that of a capture, whatever comes before the ending,
/// and no other name is.
pub proof fn law_captures_are_known_by_their_ending(base: Seq<char>, name: Seq<char>)
    ensures
        is_otlp_name(base + ".otlp.json"@),
        is_otlp_name(base + ".otlp.proto.json"@),
        is_otlp_name(name) ==> (exists|b: Seq<char>|
            name == #[trigger] (b + ".otlp.json"@) || name == b + ".otlp.proto.json"@),
{
    let one = base + ".otlp.json"@;
    let two = base + ".otlp.proto.json"@;
    assert(one.subrange(base.len() as int, one.len() as int) =~= ".otlp.json"@);
    assert(two.subrange(base.len() as int, two.len() as int) =~= ".otlp.proto.json"@);
    if ".otlp.json"@.is_suffix_of(name) {
        let n = name.len() - ".otlp.json"@.len();
        assert(name =~= name.take(n) + name.subrange(n, name.len() as int));
        assert(name == name.take(n) + ".otlp.json"@);
    } else if ".otlp.proto.json"@.is_suffix_of(name) {
        let n = name.len() - ".otlp.proto.json"@.len();
        assert(name =~= name.take(n) + name.subrange(n, name.len() as int));
        let b = name.take(n);
        let other = b + ".otlp.json"@;
        assert(name == b + ".otlp.proto.json"@);
    }
}

/// A scan is gone through file by file, in its order: a file that is new is handed out behind
/// those before it, and one that is not is passed over.
pub proof fn law_scans_are_gone_through_in_order(
    seen: Set<Seq<char>>,
    files: Seq<Seq<char>>,
    file: Seq<char>,
)
    ensures
        unseen(seen, Seq::empty()) == Seq::<Seq<char>>::empty(),
        seen.contains(file) ==> unseen(seen, files.push(file)) == unseen(seen, files),
        !seen.contains(file) ==> unseen(seen, files.push(file)) == unseen(seen, files).push(file),
        seen_after(seen, files.push(file)) == seen_after(seen, files).insert(file),
        seen_after(seen, Seq::empty()) == seen,
{
    reveal(Seq::filter);
    let longer = files.push(file);
    assert(longer.drop_last() =~= files);
    assert forall|x: Seq<char>| seen_after(seen, longer).contains(x) == seen_after(
        seen,
        files,
    ).insert(file).contains(x) by {
        if files.contains(x) {
            assert(longer[files.index_of(x)] == x);
        }
        assert(longer[files.len() as int] == file);
        if longer.contains(x) {
            let k = longer.index_of(x);
            if k < files.len() {
                assert(files[k] == x);
            }
        }
    }
    assert(seen_after(seen, longer) =~= seen_after(seen, files).insert(file));
    assert(seen_after(seen, Seq::empty()) =~= seen);
    assert(unseen(seen, Seq::empty()) =~= Seq::<Seq<char>>::empty());
}

} // verus!
