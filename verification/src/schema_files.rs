//! Schema files found in a workspace, merged into a provider: the newest
//! file wins for each plugin; and the provider for a fetched schema
//! document, with the built-in schema standing in where the document lists
//! no plugins.

use vstd::prelude::*;
use crate::json::{JsonValue, JsonMember, spec_get, take_member, json_keys_distinct};
use crate::schema::{SchemaProvider, spec_local_schemas, last_schema_for, has_fallback_plugins, lit, property_keys_distinct, lemma_parsed_property_keys_distinct, lemma_local_schemas_parsed};

verus! {

/// The listings of `ls`, each with the time `t`.
pub open spec fn tagged(t: u64, ls: Seq<(Seq<char>, JsonValue)>) -> Seq<(u64, Seq<char>, JsonValue)> {
    Seq::new(ls.len(), |k: int| (t, ls[k].0, ls[k].1))
}

/// The plugin schemas that schema files list, file by file, each with its
/// file's modification time, each file's in the order it lists them.
pub open spec fn file_listings(files: Seq<(u64, JsonValue)>) -> Seq<(u64, Seq<char>, JsonValue)>
    decreases files.len(),
{
    if files.len() == 0 {
        seq![]
    } else {
        file_listings(files.drop_last()) + tagged(files.last().0, spec_local_schemas(files.last().1))
    }
}

/// The listing of `prefix` that wins, with its time: the newest; among
/// listings equally new, the last.
pub open spec fn newest_listing(ls: Seq<(u64, Seq<char>, JsonValue)>, prefix: Seq<char>) -> Option<(u64, JsonValue)>
    decreases ls.len(),
{
    if ls.len() == 0 {
        None
    } else {
        let rest = newest_listing(ls.drop_last(), prefix);
        if ls.last().1 == prefix && (match rest {
            Some(x) => x.0 <= ls.last().0,
            None => true,
        }) {
            Some((ls.last().0, ls.last().2))
        } else {
            rest
        }
    }
}

/// Newest wins: the listing of a prefix that wins is one of its listings,
/// and no listing of that prefix is newer; a prefix that nothing lists has
/// no winner.
pub proof fn law_newest_schema_wins(ls: Seq<(u64, Seq<char>, JsonValue)>, prefix: Seq<char>)
    ensures
        match newest_listing(ls, prefix) {
            Some(x) => {
                &&& exists|k: int| 0 <= k < ls.len() && #[trigger] ls[k] == (x.0, prefix, x.1)
                &&& forall|k: int| 0 <= k < ls.len() && (#[trigger] ls[k]).1 == prefix ==> ls[k].0 <= x.0
            },
            None => forall|k: int| 0 <= k < ls.len() ==> (#[trigger] ls[k]).1 != prefix,
        },
    decreases ls.len(),
{
    if ls.len() > 0 {
        let init = ls.drop_last();
        let last = ls.last();
        law_newest_schema_wins(init, prefix);
        assert forall|k: int| 0 <= k < init.len() implies #[trigger] init[k] == ls[k] by {}
        assert(ls[ls.len() - 1] == last);
        let rest = newest_listing(init, prefix);
        match newest_listing(ls, prefix) {
            Some(x) => {
                if last.1 == prefix && (match rest {
                    Some(y) => y.0 <= last.0,
                    None => true,
                }) {
                    assert(ls[ls.len() - 1] == (x.0, prefix, x.1));
                    assert forall|k: int| 0 <= k < ls.len() && (#[trigger] ls[k]).1 == prefix implies ls[k].0 <= x.0 by {
                        if k < ls.len() - 1 {
                            assert(init[k] == ls[k]);
                        }
                    }
                } else {
                    assert(rest == Some(x));
                    let k0 = choose|k: int| 0 <= k < init.len() && #[trigger] init[k] == (x.0, prefix, x.1);
                    assert(ls[k0] == init[k0]);
                    assert forall|k: int| 0 <= k < ls.len() && (#[trigger] ls[k]).1 == prefix implies ls[k].0 <= x.0 by {
                        if k < ls.len() - 1 {
                            assert(init[k] == ls[k]);
                        }
                    }
                }
            },
            None => {
                assert forall|k: int| 0 <= k < ls.len() implies (#[trigger] ls[k]).1 != prefix by {
                    if k < ls.len() - 1 {
                        assert(init[k] == ls[k]);
                    }
                }
            },
        }
    }
}

/// The plugin schemas listed in files read from JSON are read from JSON.
proof fn lemma_listings_parsed(files: Seq<(u64, JsonValue)>)
    requires
        forall|i: int| 0 <= i < files.len() ==> json_keys_distinct(#[trigger] files[i].1),
    ensures
        forall|k: int| 0 <= k < file_listings(files).len() ==> json_keys_distinct(#[trigger] file_listings(files)[k].2),
    decreases files.len(),
{
    if files.len() > 0 {
        let init = files.drop_last();
        assert forall|i: int| 0 <= i < init.len() implies json_keys_distinct(#[trigger] init[i].1) by {
            assert(init[i] == files[i]);
        }
        lemma_listings_parsed(init);
        assert(files[files.len() - 1] == files.last());
        lemma_local_schemas_parsed(files.last().1);
        let a = file_listings(init);
        let b = tagged(files.last().0, spec_local_schemas(files.last().1));
        assert forall|k: int| 0 <= k < file_listings(files).len() implies json_keys_distinct(#[trigger] file_listings(files)[k].2) by {
            if k < a.len() {
                assert(file_listings(files)[k] == a[k]);
            } else {
                assert(file_listings(files)[k] == b[k - a.len()]);
            }
        }
    }
}

/// The times recorded for prefixes: the last one recorded for `prefix`.
spec fn last_time_for(ts: Seq<(Seq<char>, u64)>, prefix: Seq<char>) -> Option<u64>
    decreases ts.len(),
{
    if ts.len() == 0 {
        None
    } else if ts.last().0 == prefix {
        Some(ts.last().1)
    } else {
        last_time_for(ts.drop_last(), prefix)
    }
}

spec fn times_view(ts: Seq<(String, u64)>) -> Seq<(Seq<char>, u64)> {
    Seq::new(ts.len(), |k: int| (ts[k].0@, ts[k].1))
}

fn latest_time(ts: &Vec<(String, u64)>, prefix: &str) -> (r: Option<u64>)
    ensures
        r == last_time_for(times_view(ts@), prefix@),
{
    let mut i: usize = ts.len();
    proof {
        assert(ts@.subrange(0, ts@.len() as int) =~= ts@);
    }
    while i > 0
        invariant
            i <= ts@.len(),
            last_time_for(times_view(ts@), prefix@) == last_time_for(times_view(ts@.subrange(0, i as int)), prefix@),
        decreases i,
    {
        proof {
            assert(times_view(ts@.subrange(0, i as int)).drop_last() =~= times_view(ts@.subrange(0, i - 1)));
        }
        if crate::text::str_eq(ts[i - 1].0.as_str(), prefix) {
            return Some(ts[i - 1].1);
        }
        i = i - 1;
    }
    proof {
        assert(times_view(ts@.subrange(0, 0)) =~= Seq::<(Seq<char>, u64)>::empty());
    }
    None
}

/// The plugin schemas a local schema document lists under `properties`.
fn local_schema_members(doc: JsonValue) -> (r: Vec<JsonMember>)
    ensures
        Seq::new(r@.len(), |k: int| (r@[k].key@, r@[k].value)) == spec_local_schemas(doc),
{
    let members = match doc {
        JsonValue::Object(ms) => ms,
        _ => {
            let r: Vec<JsonMember> = Vec::new();
            assert(Seq::new(r@.len(), |k: int| (r@[k].key@, r@[k].value)) =~= spec_local_schemas(doc));
            return r;
        },
    };
    match take_member(members, "properties") {
        Some(JsonValue::Object(pms)) => pms,
        _ => {
            let r: Vec<JsonMember> = Vec::new();
            assert(Seq::new(r@.len(), |k: int| (r@[k].key@, r@[k].value)) =~= spec_local_schemas(doc));
            r
        },
    }
}


impl SchemaProvider {
    /// Merges schema files, each given with its modification time: for each
    /// prefix, the schema of the newest file that lists it wins (among
    /// files equally new, the later one; within a file, its last listing);
    /// a prefix that no file lists keeps its schema.
    pub fn merge_schema_files(&mut self, files: Vec<(u64, JsonValue)>)
        ensures
            forall|p: Seq<char>| #[trigger] final(self).plugin(p) == (match newest_listing(file_listings(files@), p) {
                Some(x) => Some(x.1),
                None => old(self).plugin(p),
            }),
            old(self).wf() && (forall|i: int| 0 <= i < files@.len() ==> json_keys_distinct(#[trigger] files@[i].1))
                ==> final(self).wf(),
    {
        let ghost start = *self;
        let ghost orig = files@;
        let mut fs = files;
        let mut times: Vec<(String, u64)> = Vec::new();
        let ghost mut i: int = 0;
        while fs.len() > 0
            invariant
                0 <= i <= orig.len(),
                fs@ == orig.subrange(i as int, orig.len() as int),
                forall|p: Seq<char>| #[trigger] last_time_for(times_view(times@), p)
                    == (match newest_listing(file_listings(orig.subrange(0, i as int)), p) {
                        Some(x) => Some(x.0),
                        None => None,
                    }),
                forall|p: Seq<char>| #[trigger] self.plugin(p)
                    == (match newest_listing(file_listings(orig.subrange(0, i as int)), p) {
                        Some(x) => Some(x.1),
                        None => start.plugin(p),
                    }),
            decreases fs@.len(),
        {
            let (t, doc) = fs.remove(0);
            proof {
                assert((t, doc) == orig[i as int]);
                assert(fs@ =~= orig.subrange(i + 1, orig.len() as int));
                assert(orig.subrange(0, i + 1).drop_last() =~= orig.subrange(0, i as int));
            }
            let ghost done = file_listings(orig.subrange(0, i as int));
            let ghost locals = spec_local_schemas(doc);
            let mut ms = local_schema_members(doc);
            let ghost mo = ms@;
            let ghost mut k: int = 0;
            while ms.len() > 0
                invariant
                    0 <= k <= mo.len(),
                    locals == Seq::new(mo.len(), |j: int| (mo[j].key@, mo[j].value)),
                    ms@ == mo.subrange(k as int, mo.len() as int),
                    forall|p: Seq<char>| #[trigger] last_time_for(times_view(times@), p)
                        == (match newest_listing(done + tagged(t, locals.subrange(0, k as int)), p) {
                            Some(x) => Some(x.0),
                            None => None,
                        }),
                    forall|p: Seq<char>| #[trigger] self.plugin(p)
                        == (match newest_listing(done + tagged(t, locals.subrange(0, k as int)), p) {
                            Some(x) => Some(x.1),
                            None => start.plugin(p),
                        }),
                decreases ms@.len(),
            {
                let m = ms.remove(0);
                let ghost before = done + tagged(t, locals.subrange(0, k as int));
                let ghost after = done + tagged(t, locals.subrange(0, k + 1));
                proof {
                    assert(m == mo[k as int]);
                    assert(ms@ =~= mo.subrange(k + 1, mo.len() as int));
                    assert(after.drop_last() =~= before);
                    assert(after.last() == (t, m.key@, m.value));
                }
                let cur = latest_time(&times, m.key.as_str());
                let wins = match cur {
                    Some(c) => c <= t,
                    None => true,
                };
                let ghost tb = times@;
                let ghost sb = *self;
                if wins {
                    times.push((m.key.clone(), t));
                    proof {
                        assert(times_view(times@).drop_last() =~= times_view(tb));
                    }
                    self.insert_plugin(m.key, m.value);
                }
                proof {
                    assert forall|p: Seq<char>| #[trigger] last_time_for(times_view(times@), p)
                        == (match newest_listing(after, p) {
                            Some(x) => Some(x.0),
                            None => None,
                        }) by {
                        assert(last_time_for(times_view(tb), p) == (match newest_listing(before, p) {
                            Some(x) => Some(x.0),
                            None => None,
                        }));
                        if wins {
                            assert(times_view(times@).last() == (m.key@, t));
                        }
                    }
                    assert forall|p: Seq<char>| #[trigger] self.plugin(p) == (match newest_listing(after, p) {
                            Some(x) => Some(x.1),
                            None => start.plugin(p),
                        }) by {
                        assert(last_time_for(times_view(tb), p) == (match newest_listing(before, p) {
                            Some(x) => Some(x.0),
                            None => None,
                        }));
                        assert(sb.plugin(p) == (match newest_listing(before, p) {
                            Some(x) => Some(x.1),
                            None => start.plugin(p),
                        }));
                    }
                }
                proof {
                    k = k + 1;
                }
            }
            proof {
                assert(locals.subrange(0, k as int) =~= locals);
                assert(file_listings(orig.subrange(0, i + 1)) == done + tagged(t, locals));
                i = i + 1;
            }
        }
        proof {
            assert(orig.subrange(0, i as int) =~= orig);
            if start.wf() && (forall|j: int| 0 <= j < orig.len() ==> json_keys_distinct(#[trigger] orig[j].1)) {
                let ls = file_listings(orig);
                lemma_listings_parsed(orig);
                assert forall|p: Seq<char>| #[trigger] self.plugin(p) is Some implies property_keys_distinct(self.plugin(p)->Some_0) by {
                    law_newest_schema_wins(ls, p);
                    if let Some(x) = newest_listing(ls, p) {
                        let k = choose|k: int| 0 <= k < ls.len() && #[trigger] ls[k] == (x.0, p, x.1);
                        lemma_parsed_property_keys_distinct(ls[k].2);
                    } else {
                        assert(start.plugin(p) == self.plugin(p));
                    }
                }
            }
        }
    }

    /// The provider for a fetched schema document: the plugins it lists
    /// under `properties`. Where there is no document, or it has no
    /// `properties` object, the built-in schema stands in.
    pub fn provider_from_document(doc: Option<JsonValue>) -> (r: SchemaProvider)
        ensures
            match doc {
                Some(d) => if spec_get(d, lit("properties")) matches Some(JsonValue::Object(_)) {
                    forall|p: Seq<char>| #[trigger] r.plugin(p) == last_schema_for(spec_local_schemas(d), p)
                } else {
                    has_fallback_plugins(r)
                },
                None => has_fallback_plugins(r),
            },
            (doc matches Some(d) ==> json_keys_distinct(d)) ==> r.wf(),
    {
        match doc {
            Some(d) => {
                let listed = match d.get("properties") {
                    Some(JsonValue::Object(_)) => true,
                    _ => false,
                };
                if listed {
                    let mut provider = SchemaProvider::new();
                    provider.merge_local_schemas(d);
                    provider
                } else {
                    SchemaProvider::with_fallback_schema()
                }
            },
            None => SchemaProvider::with_fallback_schema(),
        }
    }
}

} // verus!
