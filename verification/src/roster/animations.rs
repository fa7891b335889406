//! How a slot's animation files line up with the motion list that names them.
//!
//! A motion list names animations by hash, so they are matched by the hashes of the file names.

use std::collections::HashMap;

use vstd::prelude::*;
use vstd::string::*;

use crate::params::{hash_name, name_hash};
use crate::text::{
    ascii_lower, before, chars_of, comes_before, concat, dec, dec_text, ends_with, has_suffix, hex,
    hex_text, hex_value, law_hexadecimal_reads_back, lemma_before_total, lemma_before_transitive, string_between, texts, to_ascii_lower,
};

verus! {

broadcast use vstd::seq_lib::group_to_multiset_ensures;

/// How a slot's animations line up with a motion list.
#[derive(Debug, Clone, PartialEq)]
pub struct AnimationBinding {
    /// The animations that the list names and the slot has.
    pub resolved: Vec<String>,
    /// The animations that the list names and the slot does not have. The game takes the donor's,
    /// which is no error.
    pub falls_back_to_donor: Vec<String>,
    /// The files that the list does not name. They never play, whatever they are called.
    pub unreferenced_files: Vec<String>,
}

impl AnimationBinding {
    /// The binding in a sentence.
    pub fn summary(&self) -> (r: String)
        ensures
            r@ == dec(self.resolved@.len()) + " animation(s) come from this costume, "@ + dec(
                self.falls_back_to_donor@.len(),
            ) + " fall back to the base costume"@,
    {
        let mut r = dec_text(self.resolved.len() as u64);
        r.append(" animation(s) come from this costume, ");
        let back = dec_text(self.falls_back_to_donor.len() as u64);
        r.append(back.as_str());
        r.append(" fall back to the base costume");
        r
    }
}

/// The name of an animation file without its extension, in lower case.
pub open spec fn anim_stem(name: Seq<char>) -> Option<Seq<char>> {
    let lower = ascii_lower(name);
    if ends_with(lower, ".nuanmb"@) {
        Some(lower.take(lower.len() - ".nuanmb"@.len()))
    } else {
        None
    }
}

fn animation_stem(name: &str) -> (r: Option<String>)
    ensures
        match r {
            Some(stem) => anim_stem(name@) == Some(stem@),
            None => anim_stem(name@) is None,
        },
{
    proof {
        reveal_strlit(".nuanmb");
    }
    let lower = to_ascii_lower(name);
    if has_suffix(lower.as_str(), ".nuanmb") {
        let v = chars_of(lower.as_str());
        assert(v@.len() == v.len());
        let stem = string_between(&v, 0, v.len() - 7);
        assert(stem@ =~= lower@.take(lower@.len() - 7));
        Some(stem)
    } else {
        None
    }
}

/// The animations that are there, by hash. Of two files with one hash the later is kept.
pub open spec fn present(files: Seq<String>) -> Map<u64, Seq<char>>
    decreases files.len(),
{
    if files.len() == 0 {
        Map::empty()
    } else {
        let front = present(files.drop_last());
        match anim_stem(files.last()@) {
            Some(stem) => front.insert(name_hash(stem), stem),
            None => front,
        }
    }
}

/// Whether texts stand in dictionary order, where one may occur more than once.
pub open spec fn sorted(s: Seq<Seq<char>>) -> bool {
    forall|i: int, j: int| 0 <= i < j < s.len() ==> !before(#[trigger] s[j], #[trigger] s[i])
}

/// Whether a list holds, in dictionary order, the name of each hash of a set.
pub open spec fn lists(
    list: Seq<Seq<char>>,
    wanted: Set<u64>,
    name: spec_fn(u64) -> Seq<char>,
) -> bool {
    sorted(list) && exists|hashes: Seq<u64>| #[trigger]
        hashes.no_duplicates() && (forall|h: u64| hashes.contains(h) == wanted.contains(h))
            && list.to_multiset() == hashes.map_values(name).to_multiset()
}

/// Adds a text to a list at its place in dictionary order.
fn insert_sorted(v: &mut Vec<String>, s: &str)
    requires
        sorted(texts(old(v)@)),
    ensures
        sorted(texts(final(v)@)),
        texts(final(v)@).to_multiset() == texts(old(v)@).to_multiset().insert(s@),
{
    let ghost was = texts(v@);
    let mut at: usize = 0;
    while at < v.len() && comes_before(v[at].as_str(), s)
        invariant
            at <= v.len(),
            was == texts(v@),
            forall|j: int| 0 <= j < at ==> before(#[trigger] was[j], s@),
        ensures
            at <= v.len(),
            forall|j: int| 0 <= j < at ==> before(#[trigger] was[j], s@),
            at < v.len() ==> !before(was[at as int], s@),
        decreases v.len() - at,
    {
        assert(was[at as int] == v@[at as int]@);
        at = at + 1;
    }
    v.insert(at, s.to_owned());
    proof {
        let i = at as int;
        let now = texts(v@);
        assert(now =~= was.insert(i, s@));
        assert forall|p: int, q: int| 0 <= p < q < now.len() implies !before(
            #[trigger] now[q],
            #[trigger] now[p],
        ) by {
            let x = now[p];
            let y = now[q];
            if p < i && q == i {
                lemma_before_total(was[p], s@);
            } else if p == i {
                let o = was[q - 1];
                assert(y == o);
                assert(i < was.len());
                if before(o, s@) {
                    if i < q - 1 {
                        assert(!before(was[q - 1], was[i]));
                        lemma_before_total(was[i], o);
                        if was[i] != o {
                            lemma_before_transitive(was[i], o, s@);
                        }
                    }
                    assert(false);
                }
            } else {
                let p2 = if p < i { p } else { p - 1 };
                let q2 = if q < i { q } else { q - 1 };
                assert(now[p] == was[p2]);
                assert(now[q] == was[q2]);
                assert(!before(was[q2], was[p2]));
            }
        }
    }
}

/// The hashes of a list of animations.
spec fn hashes_of(v: Seq<(u64, String)>) -> Seq<u64> {
    v.map_values(|e: (u64, String)| e.0)
}

/// Whether a list has the animations that are there, each hash once.
spec fn lists_present(v: Seq<(u64, String)>, map: Map<u64, Seq<char>>) -> bool {
    &&& hashes_of(v).no_duplicates()
    &&& forall|h: u64| hashes_of(v).contains(h) == #[trigger] map.contains_key(h)
    &&& forall|i: int| 0 <= i < v.len() ==> map[(#[trigger] v[i]).0] == v[i].1@
}

fn place_of(v: &Vec<(u64, String)>, hash: u64) -> (r: Option<usize>)
    ensures
        match r {
            Some(at) => at < v@.len() && v@[at as int].0 == hash && hashes_of(v@).contains(hash),
            None => !hashes_of(v@).contains(hash),
        },
{
    let mut i: usize = 0;
    while i < v.len()
        invariant
            i <= v.len(),
            forall|j: int| 0 <= j < i ==> (#[trigger] v@[j]).0 != hash,
        decreases v.len() - i,
    {
        if v[i].0 == hash {
            assert(hashes_of(v@)[i as int] == hash);
            return Some(i);
        }
        i = i + 1;
    }
    assert forall|j: int| 0 <= j < v@.len() implies hashes_of(v@)[j] != hash by {
        assert(v@[j].0 != hash);
    }
    None
}

fn find_present(files: &Vec<String>) -> (v: Vec<(u64, String)>)
    ensures
        lists_present(v@, present(files@)),
{
    let mut v: Vec<(u64, String)> = Vec::new();
    let mut i: usize = 0;
    assert(files@.take(0) =~= Seq::empty());
    while i < files.len()
        invariant
            i <= files.len(),
            lists_present(v@, present(files@.take(i as int))),
        decreases files.len() - i,
    {
        assert(files@.take(i + 1).drop_last() =~= files@.take(i as int));
        let ghost was = v@;
        let ghost map = present(files@.take(i as int));
        if let Some(stem) = animation_stem(files[i].as_str()) {
            let hash = hash_name(stem.as_str());
            let ghost text = stem@;
            match place_of(&v, hash) {
                Some(at) => {
                    v.remove(at);
                    v.insert(at, (hash, stem));
                    proof {
                        assert(hashes_of(v@) =~= hashes_of(was));
                        let next = map.insert(hash, text);
                        assert forall|h: u64| hashes_of(v@).contains(h)
                            == #[trigger] next.contains_key(h) by {
                            assert(hashes_of(was).contains(h) == map.contains_key(h));
                        }
                        assert forall|k: int| 0 <= k < v@.len() implies next[(
                        #[trigger] v@[k]).0] == v@[k].1@ by {
                            if k != at {
                                assert(v@[k] == was[k]);
                                assert(hashes_of(was)[k] != hashes_of(was)[at as int]);
                            }
                        }
                    }
                },
                None => {
                    v.push((hash, stem));
                    proof {
                        let next = map.insert(hash, text);
                        assert(hashes_of(v@) =~= hashes_of(was).push(hash));
                        assert forall|h: u64| hashes_of(v@).contains(h)
                            == #[trigger] next.contains_key(h) by {
                            assert(hashes_of(was).contains(h) == map.contains_key(h));
                            if h == hash {
                                assert(hashes_of(v@)[was.len() as int] == hash);
                            } else if hashes_of(was).contains(h) {
                                let k = hashes_of(was).index_of(h);
                                assert(hashes_of(v@)[k] == h);
                            }
                        }
                        assert forall|k: int| 0 <= k < v@.len() implies next[(
                        #[trigger] v@[k]).0] == v@[k].1@ by {
                            if k < was.len() {
                                assert(v@[k] == was[k]);
                                assert(hashes_of(was)[k] == was[k].0);
                            }
                        }
                    }
                },
            }
        }
        i = i + 1;
    }
    assert(files@.take(files@.len() as int) =~= files@);
    v
}

fn has_hash(v: &Vec<u64>, hash: u64) -> (r: bool)
    ensures
        r == v@.contains(hash),
{
    let mut i: usize = 0;
    while i < v.len()
        invariant
            i <= v.len(),
            forall|j: int| 0 <= j < i ==> v@[j] != hash,
        decreases v.len() - i,
    {
        if v[i] == hash {
            assert(v@[i as int] == hash);
            return true;
        }
        i = i + 1;
    }
    false
}

/// How an animation that is not there is named: by its label, or by its hash.
pub open spec fn animation_name(hash: u64, labels: Map<u64, String>) -> Seq<char> {
    if labels.contains_key(hash) {
        labels[hash]@
    } else {
        "0x"@ + hex(hash as nat, 16)
    }
}

fn describe(hash: u64, labels: &HashMap<u64, String>) -> (r: String)
    ensures
        r@ == animation_name(hash, labels@),
{
    broadcast use vstd::std_specs::hash::group_hash_axioms;

    match labels.get(&hash) {
        Some(label) => label.clone(),
        None => {
            let digits = hex_text(hash, 16);
            concat("0x", digits.as_str())
        },
    }
}

/// The hashes of a list that a map does not have.
pub open spec fn absent(named: Seq<u64>, there: Map<u64, Seq<char>>) -> Set<u64> {
    Set::new(|h: u64| named.contains(h) && !there.contains_key(h))
}

/// The hashes of a map that a list has.
pub open spec fn named_present(named: Seq<u64>, there: Map<u64, Seq<char>>) -> Set<u64> {
    Set::new(|h: u64| named.contains(h) && there.contains_key(h))
}

/// The hashes of a map that a list does not have.
pub open spec fn unnamed_present(named: Seq<u64>, there: Map<u64, Seq<char>>) -> Set<u64> {
    Set::new(|h: u64| !named.contains(h) && there.contains_key(h))
}

/// Compares the files of a slot's motion directory with the animations that the donor's motion
/// list names, by hash. The labels name those that the slot does not have.
pub fn bind_animations(named: &Vec<u64>, files: &Vec<String>, labels: &HashMap<u64, String>) -> (r:
    AnimationBinding)
    ensures
        lists(
            texts(r.resolved@),
            named_present(named@, present(files@)),
            |h: u64| present(files@)[h],
        ),
        lists(
            texts(r.unreferenced_files@),
            unnamed_present(named@, present(files@)),
            |h: u64| present(files@)[h],
        ),
        lists(
            texts(r.falls_back_to_donor@),
            absent(named@, present(files@)),
            |h: u64| animation_name(h, labels@),
        ),
{
    let there = find_present(files);
    let ghost map = present(files@);
    let ghost stem_of = |h: u64| present(files@)[h];
    let ghost name_of = |h: u64| animation_name(h, labels@);
    let mut resolved: Vec<String> = Vec::new();
    let mut unreferenced: Vec<String> = Vec::new();
    let ghost mut resolved_hashes: Seq<u64> = Seq::empty();
    let ghost mut unreferenced_hashes: Seq<u64> = Seq::empty();
    let mut i: usize = 0;
    assert(texts(resolved@) =~= resolved_hashes.map_values(stem_of));
    assert(texts(unreferenced@) =~= unreferenced_hashes.map_values(stem_of));
    while i < there.len()
        invariant
            i <= there.len(),
            map == present(files@),
            stem_of == (|h: u64| present(files@)[h]),
            lists_present(there@, map),
            sorted(texts(resolved@)),
            sorted(texts(unreferenced@)),
            texts(resolved@).to_multiset() == resolved_hashes.map_values(stem_of).to_multiset(),
            texts(unreferenced@).to_multiset() == unreferenced_hashes.map_values(
                stem_of,
            ).to_multiset(),
            resolved_hashes.no_duplicates(),
            unreferenced_hashes.no_duplicates(),
            forall|h: u64| #[trigger]
                resolved_hashes.contains(h) == (named@.contains(h) && hashes_of(there@).take(
                    i as int,
                ).contains(h)),
            forall|h: u64| #[trigger]
                unreferenced_hashes.contains(h) == (!named@.contains(h) && hashes_of(there@).take(
                    i as int,
                ).contains(h)),
        decreases there.len() - i,
    {
        let hash: u64 = there[i].0;
        let ghost all = hashes_of(there@);
        let ghost was_resolved = resolved_hashes;
        let ghost was_unreferenced = unreferenced_hashes;
        proof {
            assert(all[i as int] == hash);
            assert(all.take(i + 1) =~= all.take(i as int).push(hash));
            assert(!all.take(i as int).contains(hash)) by {
                if all.take(i as int).contains(hash) {
                    let k = all.take(i as int).index_of(hash);
                    assert(all[k] == hash);
                }
            }
            assert(map[there@[i as int].0] == there@[i as int].1@);
            lemma_contains_push(all.take(i as int), hash);
            lemma_contains_push(was_resolved, hash);
            lemma_contains_push(was_unreferenced, hash);
            assert(!was_resolved.contains(hash));
            assert(!was_unreferenced.contains(hash));
        }
        if has_hash(named, hash) {
            insert_sorted(&mut resolved, there[i].1.as_str());
            proof {
                resolved_hashes = was_resolved.push(hash);
                assert(resolved_hashes.map_values(stem_of) =~= was_resolved.map_values(
                    stem_of,
                ).push(stem_of(hash)));
            }
        } else {
            insert_sorted(&mut unreferenced, there[i].1.as_str());
            proof {
                unreferenced_hashes = was_unreferenced.push(hash);
                assert(unreferenced_hashes.map_values(stem_of) =~= was_unreferenced.map_values(
                    stem_of,
                ).push(stem_of(hash)));
            }
        }
        i = i + 1;
    }
    proof {
        assert(hashes_of(there@).take(there@.len() as int) =~= hashes_of(there@));
        assert forall|h: u64| resolved_hashes.contains(h) == named_present(
            named@,
            map,
        ).contains(h) by {
            assert(hashes_of(there@).contains(h) == map.contains_key(h));
        }
        assert forall|h: u64| unreferenced_hashes.contains(h) == unnamed_present(
            named@,
            map,
        ).contains(h) by {
            assert(hashes_of(there@).contains(h) == map.contains_key(h));
        }
        assert(lists(texts(resolved@), named_present(named@, map), stem_of)) by {
            assert(resolved_hashes.no_duplicates());
        }
        assert(lists(texts(unreferenced@), unnamed_present(named@, map), stem_of)) by {
            assert(unreferenced_hashes.no_duplicates());
        }
    }
    let mut back: Vec<String> = Vec::new();
    let ghost mut back_hashes: Seq<u64> = Seq::empty();
    let mut seen: Vec<u64> = Vec::new();
    let mut k: usize = 0;
    assert(texts(back@) =~= back_hashes.map_values(name_of));
    while k < named.len()
        invariant
            k <= named.len(),
            map == present(files@),
            name_of == (|h: u64| animation_name(h, labels@)),
            lists_present(there@, map),
            sorted(texts(back@)),
            texts(back@).to_multiset() == back_hashes.map_values(name_of).to_multiset(),
            back_hashes == seen@,
            back_hashes.no_duplicates(),
            forall|h: u64| #[trigger]
                back_hashes.contains(h) == (named@.take(k as int).contains(h)
                    && !map.contains_key(h)),
        decreases named.len() - k,
    {
        let hash: u64 = named[k];
        let ghost was = back_hashes;
        proof {
            assert(named@.take(k + 1) =~= named@.take(k as int).push(hash));
            lemma_contains_push(named@.take(k as int), hash);
            lemma_contains_push(was, hash);
            assert(hashes_of(there@).contains(hash) == map.contains_key(hash));
        }
        if place_of(&there, hash).is_none() && !has_hash(&seen, hash) {
            let name = describe(hash, labels);
            insert_sorted(&mut back, name.as_str());
            seen.push(hash);
            proof {
                back_hashes = was.push(hash);
                assert(back_hashes.map_values(name_of) =~= was.map_values(name_of).push(
                    name_of(hash),
                ));
            }
        }
        k = k + 1;
    }
    proof {
        assert(named@.take(named@.len() as int) =~= named@);
        assert(lists(texts(back@), absent(named@, map), name_of)) by {
            assert(back_hashes.no_duplicates());
        }
    }
    AnimationBinding { resolved, falls_back_to_donor: back, unreferenced_files: unreferenced }
}

/// Every animation that the list names comes from the slot or from the donor, not from both; and
/// every file is named or unreferenced, not both.
pub proof fn law_every_animation_is_on_one_side(named: Seq<u64>, there: Map<u64, Seq<char>>)
    ensures
        named_present(named, there).union(absent(named, there)) == named.to_set(),
        named_present(named, there).disjoint(absent(named, there)),
        named_present(named, there).union(unnamed_present(named, there)) == there.dom(),
        named_present(named, there).disjoint(unnamed_present(named, there)),
{
    assert(named_present(named, there).union(absent(named, there)) =~= named.to_set());
    assert(named_present(named, there).union(unnamed_present(named, there)) =~= there.dom());
}

proof fn lemma_contains_push(s: Seq<u64>, x: u64)
    ensures
        forall|h: u64| #[trigger] s.push(x).contains(h) == (s.contains(h) || h == x),
{
    assert forall|h: u64| #[trigger] s.push(x).contains(h) == (s.contains(h) || h == x) by {
        if s.contains(h) {
            let i = s.index_of(h);
            assert(s.push(x)[i] == h);
        }
        if h == x {
            assert(s.push(x)[s.len() as int] == x);
        }
        if s.push(x).contains(h) {
            let i = s.push(x).index_of(h);
            if i < s.len() {
                assert(s[i] == h);
            }
        }
    }
}

/// An animation file is known by the end of its name, in whatever case, and its stem is the rest in
/// lower case.
pub proof fn law_an_animation_is_named_by_its_file(base: Seq<char>)
    ensures
        anim_stem(base + ".nuanmb"@) == Some(ascii_lower(base)),
        anim_stem(base + ".NUANMB"@) == Some(ascii_lower(base)),
        anim_stem(base) is Some ==> ascii_lower(base) == anim_stem(base)->0 + ".nuanmb"@,
{
    reveal_strlit(".nuanmb");
    reveal_strlit(".NUANMB");
    let small = ascii_lower(base + ".nuanmb"@);
    let large = ascii_lower(base + ".NUANMB"@);
    assert(small.subrange(small.len() - 7, small.len() as int) =~= ".nuanmb"@);
    assert(large.subrange(large.len() - 7, large.len() as int) =~= ".nuanmb"@);
    assert(small.take(small.len() - 7) =~= ascii_lower(base));
    assert(large.take(large.len() - 7) =~= ascii_lower(base));
    let lower = ascii_lower(base);
    if anim_stem(base) is Some {
        assert(lower =~= lower.take(lower.len() - 7) + lower.subrange(
            lower.len() - 7,
            lower.len() as int,
        ));
    }
}

/// An animation is there, under the hash of its stem, exactly where one of the files is of that
/// stem.
pub proof fn law_what_is_there_has_a_file(files: Seq<String>, hash: u64)
    ensures
        present(files).contains_key(hash) <==> exists|i: int|
            0 <= i < files.len() && anim_stem((#[trigger] files[i])@) is Some && name_hash(
                anim_stem(files[i]@)->0,
            ) == hash,
        present(files).contains_key(hash) ==> name_hash(present(files)[hash]) == hash && exists|
            i: int,
        |
            0 <= i < files.len() && anim_stem((#[trigger] files[i])@) == Some(present(files)[hash]),
    decreases files.len(),
{
    if files.len() > 0 {
        let front = files.drop_last();
        law_what_is_there_has_a_file(front, hash);
        let last = files.last();
        assert(files[files.len() - 1] == last);
        assert forall|i: int| 0 <= i < front.len() implies front[i] == #[trigger] files[i] by {}
        let own = anim_stem(last@) is Some && name_hash(anim_stem(last@)->0) == hash;
        if present(files).contains_key(hash) && !own {
            assert(present(front).contains_key(hash));
            assert(present(files)[hash] == present(front)[hash]);
            let i = choose|i: int|
                0 <= i < front.len() && anim_stem((#[trigger] front[i])@) == Some(
                    present(front)[hash],
                );
            assert(files[i] == front[i]);
        }
        if exists|i: int|
            0 <= i < files.len() && anim_stem((#[trigger] files[i])@) is Some && name_hash(
                anim_stem(files[i]@)->0,
            ) == hash {
            let i = choose|i: int|
                0 <= i < files.len() && anim_stem((#[trigger] files[i])@) is Some && name_hash(
                    anim_stem(files[i]@)->0,
                ) == hash;
            if i < front.len() {
                assert(front[i] == files[i]);
            }
        }
    }
}

/// An animation that is not there is named by its label, or where it has none by its hash in
/// sixteen digits.
pub proof fn law_an_unknown_animation_is_named_by_its_hash(hash: u64, labels: Map<u64, String>)
    ensures
        labels.contains_key(hash) ==> animation_name(hash, labels) == labels[hash]@,
        !labels.contains_key(hash) ==> animation_name(hash, labels).take(2) == seq!['0', 'x']
            && hex_value(animation_name(hash, labels).skip(2)) == hash && animation_name(
            hash,
            labels,
        ).len() >= 18,
{
    reveal_strlit("0x");
    law_hexadecimal_reads_back(hash as nat, 16);
    if !labels.contains_key(hash) {
        assert(animation_name(hash, labels).skip(2) =~= hex(hash as nat, 16));
        assert(animation_name(hash, labels).take(2) =~= seq!['0', 'x']);
    }
}

} // verus!
