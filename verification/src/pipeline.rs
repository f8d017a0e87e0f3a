//! The match–rank–annotate–recover pipeline: a query is normalized per
//! namespace, every key is scored, candidates above the threshold are
//! ordered, capped and rendered; a selected title is recovered back into its
//! key, looked up, and resolved into the locations to open.

use vstd::prelude::*;
use crate::{NixOSOption, RenderedResult};
use crate::escape::escape_text;
use crate::markup::markup_pipeline;
use crate::matcher::{
    cand_view, cand_views, normalized_query, scored, truncated, MatchCandidate,
};
use crate::resolve::resolved_decls;
use crate::store::{first_hit, OptionsMap, State};
use crate::text::{has_char, trim_spec};
use crate::title::rendered_title;

verus! {

/// The Type field appended to every description.
pub open spec fn type_block(ty: Seq<char>) -> Seq<char> {
    "\n\n<b>Type</b>: "@ + "<span font_family=\"monospace\">"@ + escape_text(ty) + "</span>"@
}

/// The separator between a field label and its value: a line break for a
/// multi-line value, a space for a single-line one.
pub open spec fn value_sep(text: Seq<char>) -> Seq<char> {
    if has_char(text, '\n') {
        seq!['\n']
    } else {
        seq![' ']
    }
}

/// The Default field for a present default value.
pub open spec fn default_block(text: Seq<char>) -> Seq<char> {
    "\n<b>Default</b>:"@ + value_sep(text) + "<span font_family=\"monospace\">"@ + escape_text(
        text,
    ) + "</span>"@
}

/// The Example field for a present example value.
pub open spec fn example_block(text: Seq<char>) -> Seq<char> {
    "\n<b>Example</b>:"@ + value_sep(text) + "<span font_family=\"monospace\">"@ + escape_text(
        text,
    ) + "</span>"@
}

/// A multi-line default or example value starts on its own line right after
/// its label; a single-line value stays on the label's line.
pub proof fn lemma_value_placement(text: Seq<char>)
    ensures
        default_block(text).len() > 16 && default_block(text)[16] == (if has_char(text, '\n') {
            '\n'
        } else {
            ' '
        }),
        example_block(text).len() > 16 && example_block(text)[16] == (if has_char(text, '\n') {
            '\n'
        } else {
            ' '
        }),
{
    reveal_strlit("\n<b>Default</b>:");
    reveal_strlit("\n<b>Example</b>:");
}

/// The styled description of a record: the documentation text, escaped and
/// run through the markup pipeline, then the Type field, then the Default
/// and Example fields where present, the whole trimmed of surrounding blank
/// characters.
pub open spec fn rendered_description(o: NixOSOption) -> Seq<char> {
    let base = match o.description {
        Some(d) => trim_spec(markup_pipeline(escape_text(d@))),
        None => Seq::<char>::empty(),
    };
    let with_type = base + type_block(o.ty@);
    let with_default = match o.default {
        Some(v) => with_type + default_block(v.text@),
        None => with_type,
    };
    let with_example = match o.example {
        Some(v) => with_default + example_block(v.text@),
        None => with_default,
    };
    trim_spec(with_example)
}

/// Renders the styled description of one record.
#[verifier::rlimit(100)]
pub fn render_description(o: &NixOSOption) -> (r: Vec<char>)
    ensures
        r@ == rendered_description(*o),
{
    let mut out: Vec<char>;
    match &o.description {
        Some(d) => {
            let escaped = crate::escape::encode_text(d.as_str());
            let ev = crate::text::str_to_chars(escaped.as_str());
            let piped = crate::markup::apply_markup(&ev);
            out = crate::text::trim_chars(&piped);
        },
        None => {
            out = Vec::new();
        },
    }
    crate::text::push_str_chars(&mut out, "\n\n<b>Type</b>: ");
    crate::text::push_str_chars(&mut out, "<span font_family=\"monospace\">");
    let ty_escaped = crate::escape::encode_text(o.ty.as_str());
    crate::text::push_str_chars(&mut out, ty_escaped.as_str());
    crate::text::push_str_chars(&mut out, "</span>");
    match &o.default {
        Some(v) => {
            crate::text::push_str_chars(&mut out, "\n<b>Default</b>:");
            if crate::text::str_has_char(v.text.as_str(), '\n') {
                out.push('\n');
            } else {
                out.push(' ');
            }
            crate::text::push_str_chars(&mut out, "<span font_family=\"monospace\">");
            let esc = crate::escape::encode_text(v.text.as_str());
            crate::text::push_str_chars(&mut out, esc.as_str());
            crate::text::push_str_chars(&mut out, "</span>");
        },
        None => {},
    }
    match &o.example {
        Some(v) => {
            crate::text::push_str_chars(&mut out, "\n<b>Example</b>:");
            if crate::text::str_has_char(v.text.as_str(), '\n') {
                out.push('\n');
            } else {
                out.push(' ');
            }
            crate::text::push_str_chars(&mut out, "<span font_family=\"monospace\">");
            let esc = crate::escape::encode_text(v.text.as_str());
            crate::text::push_str_chars(&mut out, esc.as_str());
            crate::text::push_str_chars(&mut out, "</span>");
        },
        None => {},
    }
    proof {
        let base = if o.description is Some {
            trim_spec(markup_pipeline(escape_text(o.description.unwrap()@)))
        } else {
            Seq::<char>::empty()
        };
        let with_type = base + type_block(o.ty@);
        let with_default = if o.default is Some {
            with_type + default_block(o.default.unwrap().text@)
        } else {
            with_type
        };
        let with_example = if o.example is Some {
            with_default + example_block(o.example.unwrap().text@)
        } else {
            with_default
        };
        assert(out@ =~= with_example);
    }
    let trimmed = crate::text::trim_chars(&out);
    trimmed
}

/// Renders one candidate: the highlighted title for its key and the styled
/// description of its record.
pub fn render_option(key: &String, record: &NixOSOption, indices: &Vec<usize>) -> (r:
    RenderedResult)
    ensures
        r.title@ == rendered_title(key@, indices@),
        r.description@ == rendered_description(*record),
{
    let kv = crate::text::str_to_chars(key.as_str());
    let tv = crate::title::render_title(&kv, indices);
    let dv = render_description(record);
    RenderedResult {
        title: crate::text::chars_to_string(&tv),
        description: crate::text::chars_to_string(&dv),
    }
}

/// The displayed view of a result list: each result as its title and
/// description text.
pub open spec fn result_views(rs: Seq<RenderedResult>) -> Seq<(Seq<char>, Seq<char>)> {
    rs.map_values(|m: RenderedResult| (m.title@, m.description@))
}

/// The block a namespace contributes, certified by an ordering `perm` of its
/// scored candidates: `perm` holds exactly the candidates that beat the
/// threshold, in weakly descending score order; the block renders the capped
/// front of `perm`, candidate by candidate.
pub open spec fn perm_ok(
    entries: Seq<(String, NixOSOption)>,
    min: i64,
    maxe: Option<usize>,
    pattern: Seq<char>,
    perm: Seq<(int, i64, Seq<usize>)>,
    out: Seq<(Seq<char>, Seq<char>)>,
) -> bool {
    &&& perm.to_multiset() == scored(entries, pattern, min).to_multiset()
    &&& (forall|a: int, b: int| 0 <= a < b < perm.len() ==> (#[trigger] perm[a]).1
        >= (#[trigger] perm[b]).1)
    &&& out.len() == truncated(perm, maxe).len()
    &&& (forall|q: int| 0 <= q < truncated(perm, maxe).len() ==> {
        let c = #[trigger] truncated(perm, maxe)[q];
        0 <= c.0 < entries.len() && out[q].0 == rendered_title(entries[c.0].0@, c.2) && out[q].1
            == rendered_description(entries[c.0].1)
    })
}

/// A namespace's output is correct when some ordering of its scored
/// candidates certifies it.
pub open spec fn ns_output_ok(
    entries: Seq<(String, NixOSOption)>,
    min: i64,
    maxe: Option<usize>,
    pattern: Seq<char>,
    out: Seq<(Seq<char>, Seq<char>)>,
) -> bool {
    exists|perm: Seq<(int, i64, Seq<usize>)>| perm_ok(entries, min, maxe, pattern, perm, out)
}

/// One namespace's block: an addressed namespace contributes a correct
/// block, an unaddressed one contributes nothing.
pub open spec fn ns_block_ok(
    ns: (String, OptionsMap),
    min: i64,
    maxe: Option<usize>,
    input: Seq<char>,
    block: Seq<(Seq<char>, Seq<char>)>,
) -> bool {
    match normalized_query(input, ns.0@) {
        Some(q) => ns_output_ok(ns.1.entries@, min, maxe, q, block),
        None => block.len() == 0,
    }
}

/// The whole output is correct when it splits into one block per namespace,
/// in namespace order.
pub open spec fn results_ok(
    nss: Seq<(String, OptionsMap)>,
    min: i64,
    maxe: Option<usize>,
    input: Seq<char>,
    out: Seq<(Seq<char>, Seq<char>)>,
) -> bool
    decreases nss.len(),
{
    if nss.len() == 0 {
        out.len() == 0
    } else {
        exists|k: int|
            #![trigger out.take(k)]
            0 <= k <= out.len() && ns_block_ok(nss[0], min, maxe, input, out.take(k))
                && results_ok(nss.skip(1), min, maxe, input, out.skip(k))
    }
}

/// Growing a correct output by one namespace's correct block keeps it
/// correct.
proof fn lemma_results_ok_append(
    nss: Seq<(String, OptionsMap)>,
    min: i64,
    maxe: Option<usize>,
    input: Seq<char>,
    out: Seq<(Seq<char>, Seq<char>)>,
    ns: (String, OptionsMap),
    block: Seq<(Seq<char>, Seq<char>)>,
)
    requires
        results_ok(nss, min, maxe, input, out),
        ns_block_ok(ns, min, maxe, input, block),
    ensures
        results_ok(nss.push(ns), min, maxe, input, out + block),
    decreases nss.len(),
{
    let nss2 = nss.push(ns);
    let out2 = out + block;
    if nss.len() == 0 {
        assert(out.len() == 0);
        let k = block.len() as int;
        assert(out2.take(k) =~= block);
        assert(out2.skip(k) =~= Seq::<(Seq<char>, Seq<char>)>::empty());
        assert(nss2[0] == ns);
        assert(nss2.skip(1) =~= Seq::<(String, OptionsMap)>::empty());
        assert(ns_block_ok(nss2[0], min, maxe, input, out2.take(k)));
        assert(results_ok(nss2.skip(1), min, maxe, input, out2.skip(k)));
        assert(results_ok(nss2, min, maxe, input, out2));
    } else {
        assert(nss2[0] == nss[0]);
        assert(nss2.skip(1) =~= nss.skip(1).push(ns));
        let k = choose|k: int|
            #![trigger out.take(k)]
            0 <= k <= out.len() && ns_block_ok(nss[0], min, maxe, input, out.take(k))
                && results_ok(nss.skip(1), min, maxe, input, out.skip(k));
        lemma_results_ok_append(nss.skip(1), min, maxe, input, out.skip(k), ns, block);
        assert(out2.take(k) =~= out.take(k));
        assert(out2.skip(k) =~= out.skip(k) + block);
        assert(ns_block_ok(nss2[0], min, maxe, input, out2.take(k)));
        assert(results_ok(nss2.skip(1), min, maxe, input, out2.skip(k)));
        assert(0 <= k <= out2.len());
        assert(results_ok(nss2, min, maxe, input, out2));
    }
}

/// Reordering a list reorders its mapped views the same way: equal
/// multisets stay equal multisets under a pointwise map.
proof fn lemma_map_values_multiset<A, B>(a: Seq<A>, b: Seq<A>, f: spec_fn(A) -> B)
    requires
        a.to_multiset() == b.to_multiset(),
    ensures
        a.map_values(f).to_multiset() == b.map_values(f).to_multiset(),
    decreases a.len(),
{
    broadcast use vstd::seq_lib::group_to_multiset_ensures;
    broadcast use vstd::multiset::group_multiset_axioms;

    vstd::seq_lib::to_multiset_len(a);
    vstd::seq_lib::to_multiset_len(b);
    if a.len() == 0 {
        assert(b.len() == 0);
        assert(a.map_values(f) =~= Seq::<B>::empty());
        assert(b.map_values(f) =~= Seq::<B>::empty());
    } else {
        let a0 = a.drop_last();
        let x = a.last();
        assert(a0.push(x) =~= a);
        vstd::seq_lib::to_multiset_build(a0, x);
        assert(a.contains(x));
        vstd::seq_lib::to_multiset_contains(a, x);
        vstd::seq_lib::to_multiset_contains(b, x);
        assert(b.to_multiset().count(x) > 0);
        let p = choose|p: int| 0 <= p < b.len() && b[p] == x;
        let b0 = b.remove(p);
        vstd::seq_lib::to_multiset_remove(b, p);
        assert(b0.to_multiset() =~= a0.to_multiset());
        lemma_map_values_multiset(a0, b0, f);
        assert(a.map_values(f) =~= a0.map_values(f).push(f(x)));
        vstd::seq_lib::to_multiset_build(a0.map_values(f), f(x));
        assert(b.map_values(f).remove(p) =~= b0.map_values(f));
        vstd::seq_lib::to_multiset_remove(b.map_values(f), p);
        assert(b.map_values(f)[p] == f(x));
        assert(b.map_values(f).contains(f(x)));
        vstd::seq_lib::to_multiset_contains(b.map_values(f), f(x));
        assert(b.map_values(f).to_multiset().count(f(x)) > 0);
        assert(a.map_values(f).to_multiset() =~= b.map_values(f).to_multiset());
    }
}

/// Matches a query against every namespace: each namespace whose prefix the
/// query carries contributes its scored, ordered, capped and rendered
/// candidates; the blocks follow namespace order.
#[verifier::rlimit(100)]
pub fn get_matches(input: &str, state: &State) -> (r: Vec<RenderedResult>)
    ensures
        results_ok(
            state.options@,
            state.config.min_score,
            state.anyrun_cfg.max_entries,
            input@,
            result_views(r@),
        ),
{
    let ghost min = state.config.min_score;
    let ghost maxe = state.anyrun_cfg.max_entries;
    let mut results: Vec<RenderedResult> = Vec::new();
    let mut i: usize = 0;
    proof {
        assert(state.options@.take(0) =~= Seq::<(String, OptionsMap)>::empty());
        assert(result_views(results@) =~= Seq::<(Seq<char>, Seq<char>)>::empty());
    }
    while i < state.options.len()
        invariant
            i <= state.options@.len(),
            min == state.config.min_score,
            maxe == state.anyrun_cfg.max_entries,
            results_ok(
                state.options@.take(i as int),
                state.config.min_score,
                state.anyrun_cfg.max_entries,
                input@,
                result_views(results@),
            ),
        decreases state.options@.len() - i,
    {
        let ghost out_before = result_views(results@);
        let ghost ns = state.options@[i as int];
        let mut block: Vec<RenderedResult> = Vec::new();
        let ghost mut bv: Seq<(Seq<char>, Seq<char>)> = Seq::empty();
        match crate::matcher::normalize_query(input, state.options[i].0.as_str()) {
            Some(q) => {
                let map = &state.options[i].1;
                let mut cands = crate::matcher::score_candidates(
                    map,
                    q.as_str(),
                    state.config.min_score,
                );
                let ghost pre_sort = cands@;
                crate::matcher::sort_candidates(&mut cands);
                let ghost perm_mc = cands@;
                let ghost perm_cv = cand_views(perm_mc);
                proof {
                    lemma_map_values_multiset(
                        perm_mc,
                        pre_sort,
                        |c: MatchCandidate| cand_view(c),
                    );
                    broadcast use vstd::seq_lib::group_to_multiset_ensures;

                    assert forall|t: int| 0 <= t < perm_mc.len() implies {
                        let c = #[trigger] perm_mc[t];
                        c.record_idx < map.entries@.len() && c.key == map.entries@[c.record_idx as int].0
                    } by {
                        let c = perm_mc[t];
                        assert(perm_mc.contains(c));
                        vstd::seq_lib::to_multiset_contains(perm_mc, c);
                        vstd::seq_lib::to_multiset_contains(pre_sort, c);
                        assert(pre_sort.contains(c));
                        let p = choose|p: int| 0 <= p < pre_sort.len() && pre_sort[p] == c;
                        assert(pre_sort[p].record_idx < map.entries@.len());
                    }
                }
                crate::matcher::truncate_candidates(&mut cands, state.anyrun_cfg.max_entries);
                proof {
                    assert(cands@ == truncated(perm_mc, maxe));
                    assert(truncated(perm_cv, maxe) =~= cand_views(cands@)) by {
                        match maxe {
                            Some(m) => {
                                if m > 0 && (m as int) < perm_mc.len() {
                                    assert(truncated(perm_cv, maxe) =~= perm_cv.take(m as int));
                                } else {
                                }
                            },
                            None => {},
                        }
                    }
                }
                let mut j: usize = 0;
                while j < cands.len()
                    invariant
                        j <= cands@.len(),
                        cands@ == truncated(perm_mc, maxe),
                        forall|t: int| 0 <= t < cands@.len() ==> {
                            let c = #[trigger] cands@[t];
                            c.record_idx < map.entries@.len() && c.key == map.entries@[c.record_idx as int].0
                        },
                        block@.len() == j,
                        forall|t: int| 0 <= t < j ==> {
                            let c = #[trigger] cands@[t];
                            block@[t].title@ == rendered_title(
                                map.entries@[c.record_idx as int].0@,
                                c.indices@,
                            ) && block@[t].description@ == rendered_description(
                                map.entries@[c.record_idx as int].1,
                            )
                        },
                    decreases cands@.len() - j,
                {
                    let c_key = &cands[j].key;
                    let c_idx = cands[j].record_idx;
                    let rr = render_option(c_key, &map.entries[c_idx].1, &cands[j].indices);
                    proof {
                        assert(cands@[j as int].key@ == map.entries@[c_idx as int].0@);
                    }
                    block.push(rr);
                    j = j + 1;
                }
                proof {
                    bv = result_views(block@);
                    assert(normalized_query(input@, ns.0@) == Some(q@));
                    assert(perm_ok(map.entries@, min, maxe, q@, perm_cv, bv)) by {
                        assert(perm_cv.to_multiset() == scored(
                            map.entries@,
                            q@,
                            min,
                        ).to_multiset()) by {
                            assert(cand_views(pre_sort) == scored(map.entries@, q@, min));
                        }
                        assert(bv.len() == truncated(perm_cv, maxe).len());
                        assert forall|t: int| 0 <= t < truncated(perm_cv, maxe).len() implies {
                            let c = #[trigger] truncated(perm_cv, maxe)[t];
                            0 <= c.0 < map.entries@.len() && bv[t].0 == rendered_title(
                                map.entries@[c.0].0@,
                                c.2,
                            ) && bv[t].1 == rendered_description(map.entries@[c.0].1)
                        } by {
                            assert(truncated(perm_cv, maxe)[t] == cand_view(cands@[t]));
                        }
                    }
                    assert(ns_output_ok(ns.1.entries@, min, maxe, q@, bv));
                    assert(ns_block_ok(ns, min, maxe, input@, bv));
                }
            },
            None => {
                proof {
                    bv = result_views(block@);
                    assert(bv.len() == 0);
                    assert(ns_block_ok(ns, min, maxe, input@, bv));
                }
            },
        }
        results.append(&mut block);
        proof {
            lemma_results_ok_append(
                state.options@.take(i as int),
                min,
                maxe,
                input@,
                out_before,
                ns,
                bv,
            );
            assert(state.options@.take(i + 1) =~= state.options@.take(i as int).push(ns));
            assert(result_views(results@) =~= out_before + bv);
        }
        i = i + 1;
    }
    proof {
        assert(state.options@.take(state.options@.len() as int) =~= state.options@);
    }
    results
}

/// What handling a selection produces: whether the results view should be
/// dismissed, and the resolved locations to open.
pub struct HandlerOutcome {
    pub close: bool,
    pub urls: Vec<String>,
}

/// Handles a selected result: the title is recovered into its key, the key
/// is looked up across the namespaces, and on a hit every declaration of the
/// record is resolved in order -- a structured declaration as it is, a plain
/// path against the configured base location -- and the view is dismissed.
/// A title that recovers to no known key keeps the view open and opens
/// nothing.
pub fn handler(selection_title: &str, state: &State) -> (r: HandlerOutcome)
    ensures
        match crate::title::recover_spec(selection_title@) {
            Some(k) => match first_hit(state.options@, k, 0) {
                Some(rec) => r.close && r.urls@.map_values(|s: String| s@) == resolved_decls(
                    rec.declarations@,
                    state.config.nixpkgs_url@,
                ),
                None => !r.close && r.urls@.len() == 0,
            },
            None => !r.close && r.urls@.len() == 0,
        },
{
    match crate::title::recover(selection_title) {
        Some(key) => {
            match state.lookup(key.as_str()) {
                Some(rec) => {
                    let urls = crate::resolve::resolve_all(
                        &rec.declarations,
                        state.config.nixpkgs_url.as_str(),
                    );
                    HandlerOutcome { close: true, urls }
                },
                None => HandlerOutcome { close: false, urls: Vec::new() },
            }
        },
        None => HandlerOutcome { close: false, urls: Vec::new() },
    }
}

} // verus!
