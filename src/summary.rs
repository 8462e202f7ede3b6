//! The grouping behind a summary: the values of each metric key across the
//! iterations of one test, in order. The statistics over them are computed
//! by the caller, for any type of value.

use vstd::prelude::*;

verus! {

/// One iteration's metrics as plain values.
pub open spec fn entries_view<V>(it: Vec<(String, V)>) -> Seq<(Seq<char>, V)> {
    it@.map_values(|p: (String, V)| (p.0@, p.1))
}

/// All iterations' metrics as plain values.
pub open spec fn iterations_view<V>(its: Vec<Vec<(String, V)>>) -> Seq<Seq<(Seq<char>, V)>> {
    its@.map_values(|it: Vec<(String, V)>| entries_view(it))
}

/// The values under `k` in one iteration, in order.
pub open spec fn values_in<V>(it: Seq<(Seq<char>, V)>, k: Seq<char>) -> Seq<V>
    decreases it.len(),
{
    if it.len() == 0 {
        Seq::empty()
    } else {
        let rest = values_in(it.drop_last(), k);
        if it.last().0 == k {
            rest.push(it.last().1)
        } else {
            rest
        }
    }
}

/// The values under `k` across the iterations, in order.
pub open spec fn observations<V>(its: Seq<Seq<(Seq<char>, V)>>, k: Seq<char>) -> Seq<V>
    decreases its.len(),
{
    if its.len() == 0 {
        Seq::empty()
    } else {
        observations(its.drop_last(), k) + values_in(its.last(), k)
    }
}

/// Whether some iteration has a value under `k`.
pub open spec fn appears<V>(its: Seq<Seq<(Seq<char>, V)>>, k: Seq<char>) -> bool {
    exists|a: int, b: int| 0 <= a < its.len() && 0 <= b < its[a].len() && #[trigger] its[a][b].0 == k
}

/// Whether an entry before position `j` of iteration `i` has the key `k`.
pub open spec fn appears_before<V>(its: Seq<Seq<(Seq<char>, V)>>, i: int, j: int, k: Seq<char>) -> bool {
    exists|a: int, b: int|
        0 <= a <= i && 0 <= b < its[a].len() && (a < i || b < j) && #[trigger] its[a][b].0 == k
}

pub open spec fn unique_keys(ks: Seq<Seq<char>>) -> bool {
    forall|x: int, y: int| 0 <= x < y < ks.len() ==> ks[x] != ks[y]
}

pub open spec fn names_view(v: Vec<String>) -> Seq<Seq<char>> {
    v@.map_values(|s: String| s@)
}

/// The keys that occur in the iterations, each once.
pub fn distinct_keys<V: Copy>(its: &Vec<Vec<(String, V)>>) -> (r: Vec<String>)
    ensures
        unique_keys(names_view(r)),
        forall|k: Seq<char>| names_view(r).contains(k) <==> appears(iterations_view(*its), k),
{
    let ghost iv = iterations_view(*its);
    let mut keys: Vec<String> = Vec::new();
    let mut i: usize = 0;
    while i < its.len()
        invariant
            i <= its@.len(),
            iv == iterations_view(*its),
            unique_keys(names_view(keys)),
            forall|k: Seq<char>| names_view(keys).contains(k) <==> appears_before(iv, i as int, 0, k),
        decreases its@.len() - i,
    {
        let it = &its[i];
        assert(iv[i as int] == entries_view(*it));
        let mut j: usize = 0;
        while j < it.len()
            invariant
                i < its@.len(),
                j <= it@.len(),
                iv == iterations_view(*its),
                *it == its@[i as int],
                iv[i as int] == entries_view(*it),
                unique_keys(names_view(keys)),
                forall|k: Seq<char>| names_view(keys).contains(k) <==> appears_before(iv, i as int, j as int, k),
            decreases it@.len() - j,
        {
            let key = &it[j].0;
            assert(iv[i as int][j as int].0 == key@);
            let mut found = false;
            let mut m: usize = 0;
            while m < keys.len()
                invariant
                    m <= keys@.len(),
                    found ==> names_view(keys).contains(key@),
                    !found ==> forall|x: int| 0 <= x < m ==> names_view(keys)[x] != key@,
                decreases keys@.len() - m,
            {
                if keys[m] == *key {
                    found = true;
                    assert(names_view(keys)[m as int] == key@);
                }
                m = m + 1;
            }
            let ghost before = names_view(keys);
            if !found {
                keys.push(key.clone());
                assert(names_view(keys) =~= before.push(key@));
            }
            assert forall|k: Seq<char>| names_view(keys).contains(k) <==> appears_before(
                iv,
                i as int,
                j + 1,
                k,
            ) by {
                if appears_before(iv, i as int, j + 1, k) {
                    let (a, b) = choose|a: int, b: int|
                        0 <= a <= i && 0 <= b < iv[a].len() && (a < i || b < j + 1) && #[trigger] iv[a][b].0 == k;
                    if a < i || b < j {
                        assert(appears_before(iv, i as int, j as int, k));
                        assert(before.contains(k));
                        let x = choose|x: int| 0 <= x < before.len() && before[x] == k;
                        assert(names_view(keys)[x] == k);
                    } else {
                        assert(k == key@);
                        if found {
                        } else {
                            assert(names_view(keys)[before.len() as int] == k);
                        }
                    }
                }
                if names_view(keys).contains(k) {
                    let x = choose|x: int| 0 <= x < names_view(keys).len() && names_view(keys)[x] == k;
                    if x < before.len() {
                        assert(before[x] == k);
                        assert(before.contains(k));
                        let (a, b) = choose|a: int, b: int|
                            0 <= a <= i && 0 <= b < iv[a].len() && (a < i || b < j) && #[trigger] iv[a][b].0 == k;
                        assert(appears_before(iv, i as int, j + 1, k));
                    } else {
                        assert(k == key@);
                        assert(iv[i as int][j as int].0 == k);
                        assert(appears_before(iv, i as int, j + 1, k));
                    }
                }
            }
            j = j + 1;
        }
        assert forall|k: Seq<char>| appears_before(iv, i as int, j as int, k) <==> appears_before(
            iv,
            i + 1,
            0,
            k,
        ) by {
            if appears_before(iv, i + 1, 0, k) {
                let (a, b) = choose|a: int, b: int|
                    0 <= a <= i + 1 && 0 <= b < iv[a].len() && (a < i + 1 || b < 0) && #[trigger] iv[a][b].0 == k;
                assert(appears_before(iv, i as int, j as int, k));
            }
            if appears_before(iv, i as int, j as int, k) {
                let (a, b) = choose|a: int, b: int|
                    0 <= a <= i && 0 <= b < iv[a].len() && (a < i || b < j) && #[trigger] iv[a][b].0 == k;
                assert(appears_before(iv, i + 1, 0, k));
            }
        }
        i = i + 1;
    }
    assert forall|k: Seq<char>| appears_before(iv, i as int, 0, k) <==> appears(iv, k) by {
        if appears(iv, k) {
            let (a, b) = choose|a: int, b: int| 0 <= a < iv.len() && 0 <= b < iv[a].len() && #[trigger] iv[a][b].0 == k;
            assert(appears_before(iv, i as int, 0, k));
        }
        if appears_before(iv, i as int, 0, k) {
            let (a, b) = choose|a: int, b: int|
                0 <= a <= i && 0 <= b < iv[a].len() && (a < i || b < 0) && #[trigger] iv[a][b].0 == k;
            assert(appears(iv, k));
        }
    }
    keys
}

/// The values under `key` across the iterations, in order.
pub fn observations_of<V: Copy>(its: &Vec<Vec<(String, V)>>, key: &String) -> (r: Vec<V>)
    ensures
        r@ == observations(iterations_view(*its), key@),
{
    let ghost iv = iterations_view(*its);
    let mut out: Vec<V> = Vec::new();
    let mut i: usize = 0;
    while i < its.len()
        invariant
            i <= its@.len(),
            iv == iterations_view(*its),
            out@ == observations(iv.subrange(0, i as int), key@),
        decreases its@.len() - i,
    {
        let it = &its[i];
        let ghost ev = entries_view(*it);
        assert(iv[i as int] == ev);
        let ghost base = out@;
        let mut j: usize = 0;
        while j < it.len()
            invariant
                i < its@.len(),
                j <= it@.len(),
                ev == entries_view(*it),
                out@ == base + values_in(ev.subrange(0, j as int), key@),
            decreases it@.len() - j,
        {
            assert(ev.subrange(0, j + 1).drop_last() =~= ev.subrange(0, j as int));
            assert(ev.subrange(0, j + 1).last() == ev[j as int]);
            assert(ev[j as int] == (it[j as int].0@, it[j as int].1));
            if it[j].0 == *key {
                out.push(it[j].1);
            }
            j = j + 1;
        }
        assert(ev.subrange(0, j as int) =~= ev);
        assert(iv.subrange(0, i + 1).drop_last() =~= iv.subrange(0, i as int));
        assert(iv.subrange(0, i + 1).last() == ev);
        i = i + 1;
    }
    assert(iv.subrange(0, i as int) =~= iv);
    out
}

/// The values of every key that occurs in the iterations: each key once,
/// with its values across the iterations in order.
pub fn group_by_key<V: Copy>(its: &Vec<Vec<(String, V)>>) -> (r: Vec<(String, Vec<V>)>)
    ensures
        unique_keys(r@.map_values(|g: (String, Vec<V>)| g.0@)),
        forall|k: Seq<char>|
            r@.map_values(|g: (String, Vec<V>)| g.0@).contains(k) <==> appears(iterations_view(*its), k),
        forall|x: int|
            0 <= x < r@.len() ==> #[trigger] r@[x].1@ == observations(iterations_view(*its), r@[x].0@),
{
    let keys = distinct_keys(its);
    let mut out: Vec<(String, Vec<V>)> = Vec::new();
    let mut x: usize = 0;
    while x < keys.len()
        invariant
            x <= keys@.len(),
            out@.map_values(|g: (String, Vec<V>)| g.0@) =~= names_view(keys).subrange(0, x as int),
            forall|y: int|
                0 <= y < out@.len() ==> #[trigger] out@[y].1@ == observations(iterations_view(*its), out@[y].0@),
        decreases keys@.len() - x,
    {
        let key = keys[x].clone();
        assert(key@ == names_view(keys)[x as int]);
        let values = observations_of(its, &key);
        let ghost before = out@;
        assert(before.map_values(|g: (String, Vec<V>)| g.0@).len() == x);
        assert(before.len() == x);
        out.push((key, values));
        assert(out@ == before.push(out@[x as int]));
        assert(out@[x as int].0@ == names_view(keys)[x as int]);
        assert forall|y: int| 0 <= y < x implies out@[y].0@ == names_view(keys)[y] by {
            assert(out@[y] == before[y]);
            assert(before.map_values(|g: (String, Vec<V>)| g.0@)[y] == names_view(keys).subrange(0, x as int)[y]);
        }
        assert(out@.map_values(|g: (String, Vec<V>)| g.0@) =~= names_view(keys).subrange(0, x + 1));
        assert forall|y: int|
            0 <= y < out@.len() implies #[trigger] out@[y].1@ == observations(iterations_view(*its), out@[y].0@) by {
            if y < before.len() {
                assert(out@[y] == before[y]);
            }
        }
        x = x + 1;
    }
    assert(names_view(keys).subrange(0, x as int) =~= names_view(keys));
    out
}

/// Whether a record field is one that the summary consumes rather than
/// passes through.
pub open spec fn consumed_key(k: Seq<char>) -> bool {
    k == "name"@ || k == "variant"@ || k == "iterations"@
}

fn is_consumed(k: &String) -> (r: bool)
    ensures
        r == consumed_key(k@),
{
    let name = String::from_str("name");
    let variant = String::from_str("variant");
    let iterations = String::from_str("iterations");
    *k == name || *k == variant || *k == iterations
}

/// The fields of a record that a summary passes through, in order.
pub open spec fn passed_through<W>(fields: Seq<(Seq<char>, W)>) -> Seq<(Seq<char>, W)>
    decreases fields.len(),
{
    if fields.len() == 0 {
        Seq::empty()
    } else {
        let rest = passed_through(fields.drop_last());
        if consumed_key(fields.last().0) {
            rest
        } else {
            rest.push(fields.last())
        }
    }
}

proof fn lemma_passed_through_keys<W>(fields: Seq<(Seq<char>, W)>)
    ensures
        forall|i: int| 0 <= i < passed_through(fields).len() ==> !consumed_key(#[trigger] passed_through(fields)[i].0),
    decreases fields.len(),
{
    if fields.len() > 0 {
        lemma_passed_through_keys(fields.drop_last());
        let rest = passed_through(fields.drop_last());
        if !consumed_key(fields.last().0) {
            assert forall|i: int| 0 <= i < rest.push(fields.last()).len() implies !consumed_key(
                #[trigger] rest.push(fields.last())[i].0,
            ) by {
                if i < rest.len() {
                    assert(rest.push(fields.last())[i] == rest[i]);
                }
            }
        }
    }
}

/// The summary of one test variant: the record's other fields, and the
/// observations of each metric key.
pub struct VariantSummary<V, W> {
    pub others: Vec<(String, W)>,
    pub summary: Vec<(String, Vec<V>)>,
}

/// `groups` lists each key of the iterations `its` once, with its values
/// across them in order.
pub open spec fn groups_of<V>(groups: Vec<(String, Vec<V>)>, its: Seq<Seq<(Seq<char>, V)>>) -> bool {
    &&& unique_keys(groups@.map_values(|g: (String, Vec<V>)| g.0@))
    &&& forall|k: Seq<char>|
        groups@.map_values(|g: (String, Vec<V>)| g.0@).contains(k) <==> appears(its, k)
    &&& forall|x: int|
        0 <= x < groups@.len() ==> #[trigger] groups@[x].1@ == observations(its, groups@[x].0@)
}

/// `s` summarizes the record with fields `fields` and the iterations `its`:
/// it keeps the fields that pass through, and groups the iterations' values
/// by key.
pub open spec fn summarizes<V, W>(
    s: VariantSummary<V, W>,
    fields: Seq<(Seq<char>, W)>,
    its: Seq<Seq<(Seq<char>, V)>>,
) -> bool {
    &&& entries_view(s.others) == passed_through(fields)
    &&& groups_of(s.summary, its)
}

/// Builds the summary of a record: drops its `name`, `variant` and
/// `iterations` fields, and groups the iterations' values by key.
pub fn summarize_record<V: Copy, W>(fields: Vec<(String, W)>, its: &Vec<Vec<(String, V)>>) -> (r: VariantSummary<V, W>)
    ensures
        summarizes(r, entries_view(fields), iterations_view(*its)),
{
    let ghost fv = entries_view(fields);
    let mut others: Vec<(String, W)> = Vec::new();
    let mut fields = fields;
    let n = fields.len();
    let mut i: usize = 0;
    while fields.len() > 0
        invariant
            n == fv.len(),
            fields@.len() + i == n,
            entries_view(fields) =~= fv.subrange(i as int, n as int),
            entries_view(others) == passed_through(fv.subrange(0, i as int)),
        decreases fields@.len(),
    {
        let ghost before = entries_view(others);
        let ghost rest = fields@;
        let ghost rv = entries_view(fields);
        let (k, w) = fields.remove(0);
        assert(fields@ =~= rest.subrange(1, rest.len() as int));
        assert forall|j: int| 0 <= j < fields@.len() implies entries_view(fields)[j] == fv[i + 1 + j] by {
            assert(fields@[j] == rest[j + 1]);
            assert(rv[j + 1] == fv.subrange(i as int, n as int)[j + 1]);
        }
        assert(entries_view(fields) =~= fv.subrange(i + 1, n as int));
        assert((k@, w) == fv[i as int]) by {
            assert(rest[0] == (k, w));
            assert(rv[0] == fv.subrange(i as int, n as int)[0]);
        }
        assert(fv.subrange(0, i + 1).drop_last() =~= fv.subrange(0, i as int));
        assert(fv.subrange(0, i + 1).last() == fv[i as int]);
        if !is_consumed(&k) {
            others.push((k, w));
            assert(entries_view(others) =~= before.push(fv[i as int]));
        }
        i = i + 1;
    }
    assert(fv.subrange(0, n as int) =~= fv);
    VariantSummary { others, summary: group_by_key(its) }
}

/// A summary never carries the iterations it was made from, and it has an
/// entry for every key that some iteration reports.
pub proof fn lemma_summary_drops_iterations<V, W>(
    s: VariantSummary<V, W>,
    fields: Seq<(Seq<char>, W)>,
    its: Seq<Seq<(Seq<char>, V)>>,
    k: Seq<char>,
)
    requires
        summarizes(s, fields, its),
    ensures
        forall|i: int| 0 <= i < s.others@.len() ==> (#[trigger] s.others@[i]).0@ != "iterations"@,
        appears(its, k) ==> s.summary@.len() > 0 && exists|x: int|
            0 <= x < s.summary@.len() && (#[trigger] s.summary@[x]).0@ == k,
{
    lemma_passed_through_keys(fields);
    assert forall|i: int| 0 <= i < s.others@.len() implies (#[trigger] s.others@[i]).0@ != "iterations"@ by {
        assert(entries_view(s.others)[i] == passed_through(fields)[i]);
        assert(!consumed_key(passed_through(fields)[i].0));
    }
    if appears(its, k) {
        let names = s.summary@.map_values(|g: (String, Vec<V>)| g.0@);
        assert(names.contains(k));
        let x = choose|x: int| 0 <= x < names.len() && names[x] == k;
        assert(s.summary@[x].0@ == k);
    }
}

/// Pooling iterations pools observations: the values of a key across two
/// runs of iterations are its values across the first, then across the
/// second; and a key occurs in the pool when it occurs in either.
pub proof fn lemma_observations_pool<V>(
    a: Seq<Seq<(Seq<char>, V)>>,
    b: Seq<Seq<(Seq<char>, V)>>,
    k: Seq<char>,
)
    ensures
        observations(a + b, k) == observations(a, k) + observations(b, k),
        appears(a + b, k) <==> appears(a, k) || appears(b, k),
    decreases b.len(),
{
    if b.len() == 0 {
        assert(a + b =~= a);
        assert(observations(a, k) + observations(b, k) =~= observations(a, k));
    } else {
        assert((a + b).drop_last() =~= a + b.drop_last());
        assert((a + b).last() == b.last());
        lemma_observations_pool(a, b.drop_last(), k);
        assert(observations(a, k) + (observations(b.drop_last(), k) + values_in(b.last(), k))
            =~= (observations(a, k) + observations(b.drop_last(), k)) + values_in(b.last(), k));
    }
    let ab = a + b;
    if appears(ab, k) {
        let (x, y) = choose|x: int, y: int| 0 <= x < ab.len() && 0 <= y < ab[x].len() && #[trigger] ab[x][y].0 == k;
        if x < a.len() {
            assert(a[x][y].0 == k);
        } else {
            assert(b[x - a.len()][y].0 == k);
        }
    }
    if appears(a, k) {
        let (x, y) = choose|x: int, y: int| 0 <= x < a.len() && 0 <= y < a[x].len() && #[trigger] a[x][y].0 == k;
        assert(ab[x][y].0 == k);
    }
    if appears(b, k) {
        let (x, y) = choose|x: int, y: int| 0 <= x < b.len() && 0 <= y < b[x].len() && #[trigger] b[x][y].0 == k;
        assert(ab[x + a.len()][y].0 == k);
    }
}

/// One test variant of a summary table: the iterations of all its records
/// so far, and their summary beside the fields of its latest record.
pub struct SummaryEntry<V, W> {
    pub name: String,
    pub variant: String,
    pub iterations: Vec<Vec<(String, V)>>,
    pub summary: VariantSummary<V, W>,
}

/// The key of an entry of a summary table: its test name and variant.
pub open spec fn table_keys<V, W>(entries: Seq<SummaryEntry<V, W>>) -> Seq<(Seq<char>, Seq<char>)> {
    entries.map_values(|e: SummaryEntry<V, W>| (e.name@, e.variant@))
}

/// Summaries of test variants, one for each name and variant.
pub struct SummaryTable<V, W> {
    pub entries: Vec<SummaryEntry<V, W>>,
}

impl<V: Copy, W> SummaryTable<V, W> {
    pub open spec fn wf(&self) -> bool {
        &&& forall|x: int, y: int|
            0 <= x < y < self.entries@.len() ==> table_keys(self.entries@)[x] != table_keys(self.entries@)[y]
        &&& forall|x: int|
            0 <= x < self.entries@.len() ==> groups_of(
                (#[trigger] self.entries@[x]).summary.summary,
                iterations_view(self.entries@[x].iterations),
            )
    }

    pub fn new() -> (r: Self)
        ensures
            r.wf(),
            r.entries@.len() == 0,
    {
        SummaryTable { entries: Vec::new() }
    }

    /// Takes one result record: its `name`, `variant` and `iterations`,
    /// where it has them, and all its fields. A record without one of the
    /// three is skipped. The iterations of all records of one name and
    /// variant are pooled, and summarized together beside the fields of the
    /// latest of them. Returns whether the record was taken.
    pub fn add_record(
        &mut self,
        name: Option<String>,
        variant: Option<String>,
        its: Option<Vec<Vec<(String, V)>>>,
        fields: Vec<(String, W)>,
    ) -> (kept: bool)
        requires
            old(self).wf(),
        ensures
            final(self).wf(),
            kept == (name is Some && variant is Some && its is Some),
            !kept ==> final(self).entries@ == old(self).entries@,
            kept ==> {
                let key = (name->Some_0@, variant->Some_0@);
                let old_keys = table_keys(old(self).entries@);
                let new_its = iterations_view(its->Some_0);
                &&& table_keys(final(self).entries@) == if old_keys.contains(key) {
                    old_keys
                } else {
                    old_keys.push(key)
                }
                &&& forall|x: int|
                    0 <= x < old_keys.len() && old_keys[x] != key ==> final(self).entries@[x]
                        == old(self).entries@[x]
                &&& forall|x: int|
                    #![trigger final(self).entries@[x]]
                    0 <= x < old_keys.len() && old_keys[x] == key ==> {
                        let before = iterations_view(old(self).entries@[x].iterations);
                        let after = iterations_view(final(self).entries@[x].iterations);
                        &&& after == before + new_its
                        &&& summarizes(final(self).entries@[x].summary, entries_view(fields), after)
                        &&& forall|k: Seq<char>|
                            #![trigger observations(after, k)]
                            observations(after, k) == observations(before, k) + observations(new_its, k)
                    }
                &&& !old_keys.contains(key) ==> {
                    let e = final(self).entries@[old_keys.len() as int];
                    &&& iterations_view(e.iterations) == new_its
                    &&& summarizes(e.summary, entries_view(fields), new_its)
                }
            },
    {
        let (nm, vr, it) = match (name, variant, its) {
            (Some(n), Some(v), Some(i)) => (n, v, i),
            _ => {
                return false;
            },
        };
        let ghost key = (nm@, vr@);
        let ghost old_keys = table_keys(self.entries@);
        let ghost new_its = iterations_view(it);
        let mut x: usize = 0;
        while x < self.entries.len()
            invariant
                x <= self.entries@.len(),
                self.entries@ == old(self).entries@,
                self.wf(),
                name == Some(nm),
                variant == Some(vr),
                its == Some(it),
                new_its == iterations_view(it),
                old_keys == table_keys(self.entries@),
                key == (nm@, vr@),
                forall|y: int| 0 <= y < x ==> old_keys[y] != key,
            decreases self.entries@.len() - x,
        {
            if self.entries[x].name == nm && self.entries[x].variant == vr {
                assert(old_keys[x as int] == key);
                let ghost before_entries = self.entries@;
                let old_entry = self.entries.remove(x);
                let ghost before = iterations_view(old_entry.iterations);
                let mut pooled = old_entry.iterations;
                let mut more = it;
                pooled.append(&mut more);
                let ghost after = iterations_view(pooled);
                assert(after =~= before + new_its);
                let summary = summarize_record(fields, &pooled);
                self.entries.insert(x, SummaryEntry { name: nm, variant: vr, iterations: pooled, summary });
                proof {
                    assert(self.entries@ =~= before_entries.update(x as int, self.entries@[x as int]));
                    assert(table_keys(self.entries@) =~= old_keys);
                    assert(old_keys.contains(key));
                    assert forall|y: int| 0 <= y < old_keys.len() && old_keys[y] == key implies y == x by {
                        if y != x {
                            if y < x {
                            } else {
                                assert(old_keys[x as int] != old_keys[y]);
                            }
                        }
                    }
                    assert forall|k: Seq<char>| #![trigger observations(after, k)]
                        observations(after, k) == observations(before, k) + observations(new_its, k) by {
                        lemma_observations_pool(before, new_its, k);
                    }
                    assert forall|y: int| 0 <= y < self.entries@.len() implies groups_of(
                        (#[trigger] self.entries@[y]).summary.summary,
                        iterations_view(self.entries@[y].iterations),
                    ) by {
                        if y != x {
                            assert(self.entries@[y] == before_entries[y]);
                        }
                    }
                }
                return true;
            }
            x = x + 1;
        }
        assert(!old_keys.contains(key)) by {
            if old_keys.contains(key) {
                let y = choose|y: int| 0 <= y < old_keys.len() && old_keys[y] == key;
                assert(old_keys[y] != key);
            }
        }
        let summary = summarize_record(fields, &it);
        let ghost before_entries = self.entries@;
        self.entries.push(SummaryEntry { name: nm, variant: vr, iterations: it, summary });
        proof {
            assert(table_keys(self.entries@) =~= old_keys.push(key));
            let n = old_keys.len() as int;
            assert(table_keys(self.entries@)[n] == key);
            assert forall|y: int| 0 <= y < old_keys.len() implies self.entries@[y] == old(self).entries@[y] by {
                assert(self.entries@[y] == before_entries[y]);
            }
            assert forall|p: int, q: int| 0 <= p < q < self.entries@.len() implies table_keys(self.entries@)[p]
                != table_keys(self.entries@)[q] by {
                if q == n {
                    assert(old_keys[p] != key);
                } else {
                    assert(old_keys[p] != old_keys[q]);
                }
            }
            assert forall|y: int| 0 <= y < self.entries@.len() implies groups_of(
                (#[trigger] self.entries@[y]).summary.summary,
                iterations_view(self.entries@[y].iterations),
            ) by {
                if y < n {
                    assert(self.entries@[y] == before_entries[y]);
                }
            }
        }
        true
    }
}

} // verus!
