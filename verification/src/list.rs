//! Hierarchical listing over a flat key space: the flat object list for a
//! prefix, and one level of delimiter grouping into common prefixes. Every
//! listed object falls in exactly one of the two partitions.

use vstd::prelude::*;
use vstd::string::{StrSliceExecFns, StringExecFns};

use crate::error::Error;
use crate::meta::{meta_from_entry, spec_meta_from_entry, ListEntry, ObjectMeta};

verus! {

/// One listing response: the flat objects and the common prefixes.
#[derive(Debug)]
pub struct ListResult {
    pub objects: Vec<ObjectMeta>,
    pub common_prefixes: Vec<String>,
}

/// Index of the first delimiter `/` at or after `i` in `key`, if any.
pub open spec fn first_delim_from(key: Seq<char>, i: int) -> Option<int>
    decreases key.len() - i,
{
    if i < 0 || i >= key.len() {
        None
    } else if key[i] == '/' {
        Some(i)
    } else {
        first_delim_from(key, i + 1)
    }
}

/// Whether a delimiter follows the listing prefix in this key.
pub open spec fn has_delim(key: Seq<char>, plen: int) -> bool {
    first_delim_from(key, plen) is Some
}

/// The common prefix this key is grouped under: everything up to and
/// including the first delimiter after the listing prefix.
pub open spec fn group_of(key: Seq<char>, plen: int) -> Seq<char> {
    key.take(first_delim_from(key, plen)->0 + 1)
}

/// The flat partition: the listed objects, in listing order, whose keys have
/// no delimiter after the prefix.
pub open spec fn spec_flat(metas: Seq<ObjectMeta>, plen: int) -> Seq<ObjectMeta>
    decreases metas.len(),
{
    if metas.len() == 0 {
        Seq::empty()
    } else {
        let rest = spec_flat(metas.drop_last(), plen);
        if has_delim(metas.last().location@, plen) {
            rest
        } else {
            rest.push(metas.last())
        }
    }
}

/// The grouped partition: each distinct common prefix, in order of first
/// appearance.
pub open spec fn spec_groups(metas: Seq<ObjectMeta>, plen: int) -> Seq<Seq<char>>
    decreases metas.len(),
{
    if metas.len() == 0 {
        Seq::empty()
    } else {
        let rest = spec_groups(metas.drop_last(), plen);
        let key = metas.last().location@;
        if has_delim(key, plen) {
            if rest.contains(group_of(key, plen)) {
                rest
            } else {
                rest.push(group_of(key, plen))
            }
        } else {
            rest
        }
    }
}

proof fn lemma_first_delim_found(key: Seq<char>, j: int, d: int)
    requires
        0 <= j <= d < key.len(),
        forall|k: int| j <= k < d ==> key[k] != '/',
        key[d] == '/',
    ensures
        first_delim_from(key, j) == Some(d),
    decreases d - j,
{
    if j < d {
        lemma_first_delim_found(key, j + 1, d);
    }
}

proof fn lemma_first_delim_none(key: Seq<char>, j: int)
    requires
        0 <= j,
        forall|k: int| j <= k < key.len() ==> key[k] != '/',
    ensures
        first_delim_from(key, j) is None,
    decreases key.len() - j,
{
    if j < key.len() {
        lemma_first_delim_none(key, j + 1);
    }
}

/// Finds the first delimiter at or after `from` among the characters of
/// `key`.
fn find_delim(key: &str, from: usize) -> (r: Option<usize>)
    ensures
        r matches Some(d) ==> {
            &&& first_delim_from(key@, from as int) == Some(d as int)
            &&& from <= d
            &&& d as int + 1 <= key@.len()
            &&& d < usize::MAX
        },
        r is None ==> first_delim_from(key@, from as int) is None,
{
    let n = key.unicode_len();
    if from >= n {
        return None;
    }
    let mut i: usize = from;
    while i < n
        invariant
            from <= i <= n == key@.len(),
            forall|k: int| from <= k < i ==> key@[k] != '/',
        decreases n - i,
    {
        if key.get_char(i) == '/' {
            proof {
                lemma_first_delim_found(key@, from as int, i as int);
            }
            return Some(i);
        }
        i = i + 1;
    }
    proof {
        lemma_first_delim_none(key@, from as int);
    }
    None
}

fn contains_string(v: &Vec<String>, s: &String) -> (r: bool)
    ensures
        r == v@.map_values(|t: String| t@).contains(s@),
{
    let ghost views = v@.map_values(|t: String| t@);
    let mut j: usize = 0;
    while j < v.len()
        invariant
            0 <= j <= v@.len(),
            views == v@.map_values(|t: String| t@),
            forall|k: int| 0 <= k < j ==> views[k] != s@,
        decreases v@.len() - j,
    {
        if v[j].eq(s) {
            proof {
                assert(views[j as int] == v@[j as int]@);
            }
            return true;
        }
        j = j + 1;
    }
    false
}

/// Splits one page of normalized listing entries into the flat objects and
/// the common prefixes for a listing prefix of `prefix_len` characters.
/// Every object lands in exactly one partition: in the flat list when no
/// delimiter follows the prefix in its key, under its common prefix
/// otherwise.
pub fn split_with_delimiter(metas: Vec<ObjectMeta>, prefix_len: usize) -> (r: ListResult)
    ensures
        r.objects@ == spec_flat(metas@, prefix_len as int),
        r.common_prefixes@.map_values(|t: String| t@) == spec_groups(metas@, prefix_len as int),
{
    let ghost orig = metas@;
    let ghost plen = prefix_len as int;
    let mut rest = metas;
    let mut objects: Vec<ObjectMeta> = Vec::new();
    let mut prefixes: Vec<String> = Vec::new();
    while rest.len() > 0
        invariant
            rest@.len() <= orig.len(),
            rest@ =~= orig.skip(orig.len() - rest@.len()),
            objects@ == spec_flat(orig.take(orig.len() - rest@.len()), plen),
            prefixes@.map_values(|t: String| t@) == spec_groups(
                orig.take(orig.len() - rest@.len()),
                plen,
            ),
            plen == prefix_len as int,
        decreases rest@.len(),
    {
        let ghost i = orig.len() - rest@.len();
        let m = rest.remove(0);
        proof {
            assert(m == orig[i]);
            assert(orig.skip(i).remove(0) =~= orig.skip(i + 1));
            assert(orig.take(i + 1).drop_last() =~= orig.take(i));
            assert(orig.take(i + 1).last() == orig[i]);
        }
        match find_delim(m.location.as_str(), prefix_len) {
            None => {
                objects.push(m);
            },
            Some(d) => {
                let group_str = m.location.as_str().substring_char(0, d + 1);
                let group = String::from_str(group_str);
                proof {
                    assert(group@ =~= group_of(m.location@, plen));
                }
                if !contains_string(&prefixes, &group) {
                    prefixes.push(group);
                    proof {
                        assert(prefixes@.map_values(|t: String| t@).drop_last() =~= prefixes@
                            .drop_last().map_values(|t: String| t@));
                        assert(prefixes@.map_values(|t: String| t@) =~= spec_groups(
                            orig.take(i + 1),
                            plen,
                        ));
                    }
                }
            },
        }
    }
    proof {
        assert(orig.take(orig.len() as int) =~= orig);
    }
    ListResult { objects, common_prefixes: prefixes }
}

/// Runs the per-entry normalization over one page of listing entries,
/// failing on the first entry that does not normalize.
pub open spec fn spec_list_metas(entries: Seq<ListEntry>) -> Result<Seq<ObjectMeta>, Error>
    decreases entries.len(),
{
    if entries.len() == 0 {
        Ok(Seq::empty())
    } else {
        match spec_list_metas(entries.drop_last()) {
            Err(e) => Err(e),
            Ok(ms) => match spec_meta_from_entry(entries.last()) {
                Err(e) => Err(e),
                Ok(m) => Ok(ms.push(m)),
            },
        }
    }
}

/// Normalizes one page of listing entries in order; the first entry missing
/// a field or carrying an unusable timestamp fails the whole page.
#[verifier::loop_isolation(false)]
pub fn list_metas(entries: Vec<ListEntry>) -> (r: Result<Vec<ObjectMeta>, Error>)
    ensures
        r matches Ok(ms) ==> spec_list_metas(entries@) == Ok::<_, Error>(ms@),
        r matches Err(e) ==> spec_list_metas(entries@) == Err::<Seq<ObjectMeta>, _>(e),
{
    let ghost orig = entries@;
    let mut rest = entries;
    let mut out: Vec<ObjectMeta> = Vec::new();
    while rest.len() > 0
        invariant
            rest@.len() <= orig.len(),
            rest@ =~= orig.skip(orig.len() - rest@.len()),
            spec_list_metas(orig.take(orig.len() - rest@.len())) == Ok::<_, Error>(out@),
        decreases rest@.len(),
    {
        let ghost i = orig.len() - rest@.len();
        let e = rest.remove(0);
        proof {
            assert(e == orig[i]);
            assert(orig.skip(i).remove(0) =~= orig.skip(i + 1));
            assert(orig.take(i + 1).drop_last() =~= orig.take(i));
            assert(orig.take(i + 1).last() == orig[i]);
        }
        match meta_from_entry(e) {
            Ok(m) => {
                out.push(m);
            },
            Err(err) => {
                proof {
                    lemma_list_metas_err(orig, i + 1);
                }
                return Err(err);
            },
        }
    }
    proof {
        assert(orig.take(orig.len() as int) =~= orig);
    }
    Ok(out)
}

proof fn lemma_list_metas_err(entries: Seq<ListEntry>, i: int)
    requires
        0 < i <= entries.len(),
        spec_list_metas(entries.take(i)) is Err,
    ensures
        spec_list_metas(entries) == spec_list_metas(entries.take(i)),
    decreases entries.len() - i,
{
    if i < entries.len() {
        assert(entries.take(i + 1).drop_last() =~= entries.take(i));
        lemma_list_metas_err(entries, i + 1);
    } else {
        assert(entries.take(i) =~= entries);
    }
}

/// Every listed object falls in exactly one partition of a delimiter
/// listing: the flat list holds exactly the objects with no delimiter after
/// the prefix, each grouped key stands under its common prefix, every common
/// prefix comes from some grouped key, and no common prefix repeats.
pub proof fn lemma_delimiter_partition(metas: Seq<ObjectMeta>, plen: int)
    ensures
        forall|i: int|
            0 <= i < metas.len() && !has_delim((#[trigger] metas[i]).location@, plen) ==> spec_flat(
                metas,
                plen,
            ).contains(metas[i]),
        forall|i: int|
            0 <= i < metas.len() && has_delim((#[trigger] metas[i]).location@, plen)
                ==> spec_groups(metas, plen).contains(group_of(metas[i].location@, plen)),
        forall|m: ObjectMeta|
            spec_flat(metas, plen).contains(m) ==> metas.contains(m) && !has_delim(
                m.location@,
                plen,
            ),
        forall|g: Seq<char>|
            spec_groups(metas, plen).contains(g) ==> exists|j: int|
                0 <= j < metas.len() && has_delim((#[trigger] metas[j]).location@, plen) && g
                    == group_of(metas[j].location@, plen),
        forall|a: int, b: int|
            0 <= a < b < spec_groups(metas, plen).len() ==> spec_groups(metas, plen)[a]
                != spec_groups(metas, plen)[b],
    decreases metas.len(),
{
    if metas.len() > 0 {
        lemma_delimiter_partition(metas.drop_last(), plen);
        let prev = metas.drop_last();
        let last = metas.last();
        assert(forall|i: int| 0 <= i < prev.len() ==> prev[i] == metas[i]);
        assert forall|m: ObjectMeta| prev.contains(m) implies metas.contains(m) by {
            let k = choose|k: int| 0 <= k < prev.len() && prev[k] == m;
            assert(metas[k] == m);
        }
        assert(metas[metas.len() - 1] == last);
        assert(metas.contains(last));
        let flat = spec_flat(metas, plen);
        let pflat = spec_flat(prev, plen);
        let groups = spec_groups(metas, plen);
        let pgroups = spec_groups(prev, plen);
        assert forall|i: int|
            0 <= i < metas.len() && !has_delim((#[trigger] metas[i]).location@, plen) implies flat
            .contains(metas[i]) by {
            if i < metas.len() - 1 {
                assert(pflat.contains(metas[i]));
                let w = choose|k: int| 0 <= k < pflat.len() && pflat[k] == metas[i];
                assert(flat[w] == metas[i]);
            } else {
                assert(flat.last() == metas[i]);
            }
        }
        assert forall|i: int|
            0 <= i < metas.len() && has_delim((#[trigger] metas[i]).location@, plen) implies groups
            .contains(group_of(metas[i].location@, plen)) by {
            let g = group_of(metas[i].location@, plen);
            if i < metas.len() - 1 {
                assert(pgroups.contains(g));
                let w = choose|k: int| 0 <= k < pgroups.len() && pgroups[k] == g;
                assert(groups[w] == g);
            } else {
                if pgroups.contains(g) {
                    let w = choose|k: int| 0 <= k < pgroups.len() && pgroups[k] == g;
                    assert(groups[w] == g);
                } else {
                    assert(groups.last() == g);
                }
            }
        }
        assert forall|m: ObjectMeta|
            flat.contains(m) implies metas.contains(m) && !has_delim(m.location@, plen) by {
            let w = choose|k: int| 0 <= k < flat.len() && flat[k] == m;
            if has_delim(last.location@, plen) {
                assert(flat == pflat);
                assert(pflat.contains(m));
                assert(prev.contains(m));
                assert(metas.contains(m));
                assert(!has_delim(m.location@, plen));
            } else {
                assert(flat == pflat.push(last));
                if w == flat.len() - 1 {
                    assert(m == last);
                    assert(metas.contains(m));
                    assert(!has_delim(m.location@, plen));
                } else {
                    assert(flat[w] == pflat[w]);
                    assert(pflat.contains(m));
                    assert(prev.contains(m));
                    assert(metas.contains(m));
                    assert(!has_delim(m.location@, plen));
                }
            }
        }
        assert forall|g: Seq<char>| groups.contains(g) implies exists|j: int|
            0 <= j < metas.len() && has_delim((#[trigger] metas[j]).location@, plen) && g
                == group_of(metas[j].location@, plen) by {
            let w = choose|k: int| 0 <= k < groups.len() && groups[k] == g;
            if w < pgroups.len() {
                assert(pgroups[w] == g);
                assert(pgroups.contains(g));
                let j = choose|j: int|
                    0 <= j < prev.len() && has_delim((#[trigger] prev[j]).location@, plen) && g
                        == group_of(prev[j].location@, plen);
                assert(metas[j] == prev[j]);
                assert(has_delim(metas[j].location@, plen) && g == group_of(
                    metas[j].location@,
                    plen,
                ));
            } else {
                let j = metas.len() - 1;
                assert(g == group_of(metas[j].location@, plen));
                assert(has_delim(metas[j].location@, plen));
            }
        }
        assert forall|a: int, b: int|
            0 <= a < b < groups.len() implies groups[a] != groups[b] by {
            if b < pgroups.len() {
                assert(pgroups[a] == groups[a] && pgroups[b] == groups[b]);
            } else {
                assert(groups[a] == pgroups[a]);
                assert(!pgroups.contains(groups[b]));
            }
        }
    }
}

} // verus!
