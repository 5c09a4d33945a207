//! The guarantees the store gives across operations: a saved record is the
//! record its file reads back as, a commission's file lies under the root
//! its status selects, a completed move shows up under `history/` and
//! leaves nothing behind under `pendings/`, and a move never touches a
//! file that is neither the one it found nor the one it writes.

use vstd::prelude::*;
use crate::client_repo::client_lookup_in;
use crate::commission_repo::{entries_after_move, first_match, moved_record, pair_matches,
    parsed_commissions, save_path, lemma_first_match_mem};
use crate::file_storage::{client_path, commission_path, sanitize_name, sanitize_ts, status_root};
use crate::records::{client_json_text, commission_json_text, lemma_client_round_trip,
    lemma_commission_round_trip, spec_parse_client_text, spec_parse_commission_text, ClientView,
    CommissionView};
use crate::store::{data_in, entries_after_delete, entries_after_write, exactly_one_slash,
    has_path_in, lemma_delete_props, lemma_write_props, paths_unique, two_level_entry,
    two_level_json, two_level_listing, EntryV, FileDataView};
use crate::strutil::{is_prefix, is_suffix};
use crate::validation::{is_id_char, valid_id};

verus! {

/// Indexing a concatenation.
proof fn lemma_concat_at(a: Seq<char>, b: Seq<char>, k: int)
    ensures
        0 <= k < a.len() + b.len() ==> (a + b)[k] == if k < a.len() {
            a[k]
        } else {
            b[k - a.len()]
        },
{
}

/// Saving a client then looking its id up returns an equal record,
/// whatever else the store holds.
pub proof fn lemma_save_then_find_client(es: Seq<EntryV>, c: ClientView)
    requires
        paths_unique(es),
    ensures
        client_lookup_in(
            entries_after_write(
                es,
                client_path(c.id),
                FileDataView::Text(client_json_text(c)),
            ),
            c.id,
        ) == Some(Some(c)),
{
    lemma_write_props(es, client_path(c.id), FileDataView::Text(client_json_text(c)));
    lemma_client_round_trip(c);
}

/// Saving a commission then reading its file back returns an equal
/// record, the integer price included, whatever else the store holds.
pub proof fn lemma_save_then_reload_commission(es: Seq<EntryV>, m: CommissionView)
    requires
        paths_unique(es),
        i64::MIN <= m.price_cents <= i64::MAX,
    ensures
        ({
            let es1 = entries_after_write(
                es,
                save_path(m),
                FileDataView::Text(commission_json_text(m)),
            );
            &&& has_path_in(es1, save_path(m))
            &&& data_in(es1, save_path(m)) == FileDataView::Text(commission_json_text(m))
            &&& spec_parse_commission_text(commission_json_text(m)) == Some(m)
        }),
{
    lemma_write_props(es, save_path(m), FileDataView::Text(commission_json_text(m)));
    lemma_commission_round_trip(m);
}

/// Each character of a commission record's path, by region.
proof fn lemma_commission_path_chars(
    status: Seq<char>,
    client_name: Seq<char>,
    id: Seq<char>,
    created_at: Seq<char>,
)
    ensures
        ({
            let r = status_root(status);
            let sn = sanitize_name(client_name);
            let st = sanitize_ts(created_at);
            let path = commission_path(status, client_name, id, created_at);
            let rl = r.len() as int;
            let snl = sn.len() as int;
            let idl = id.len() as int;
            let stl = st.len() as int;
            &&& path.len() == rl + snl + idl + stl + 8
            &&& forall|j: int|
                0 <= j < path.len() ==> (#[trigger] path[j]) == (if j < rl {
                    r[j]
                } else if j == rl {
                    '/'
                } else if j < rl + 1 + snl {
                    sn[j - rl - 1]
                } else if j == rl + 1 + snl {
                    '/'
                } else if j < rl + 2 + snl + idl {
                    id[j - rl - 2 - snl]
                } else if j == rl + 2 + snl + idl {
                    '_'
                } else if j < rl + 3 + snl + idl + stl {
                    st[j - rl - 3 - snl - idl]
                } else {
                    ".json"@[j - (rl + 3 + snl + idl + stl)]
                })
        }),
{
    reveal_strlit("/");
    reveal_strlit("_");
    reveal_strlit(".json");
    let r = status_root(status);
    let sn = sanitize_name(client_name);
    let st = sanitize_ts(created_at);
    let p1 = r + "/"@;
    let p2 = p1 + sn;
    let p3 = p2 + "/"@;
    let p4 = p3 + id;
    let p5 = p4 + "_"@;
    let p6 = p5 + st;
    let path = p6 + ".json"@;
    assert(commission_path(status, client_name, id, created_at) == path);
    let rl = r.len() as int;
    let snl = sn.len() as int;
    let idl = id.len() as int;
    let stl = st.len() as int;
    assert forall|j: int|
        0 <= j < path.len() implies (#[trigger] path[j]) == (if j < rl {
        r[j]
    } else if j == rl {
        '/'
    } else if j < rl + 1 + snl {
        sn[j - rl - 1]
    } else if j == rl + 1 + snl {
        '/'
    } else if j < rl + 2 + snl + idl {
        id[j - rl - 2 - snl]
    } else if j == rl + 2 + snl + idl {
        '_'
    } else if j < rl + 3 + snl + idl + stl {
        st[j - rl - 3 - snl - idl]
    } else {
        ".json"@[j - (rl + 3 + snl + idl + stl)]
    }) by {
        lemma_concat_at(p6, ".json"@, j);
        lemma_concat_at(p5, st, j);
        lemma_concat_at(p4, "_"@, j);
        lemma_concat_at(p3, id, j);
        lemma_concat_at(p2, "/"@, j);
        lemma_concat_at(p1, sn, j);
        lemma_concat_at(r, "/"@, j);
    }
}

/// A commission record's path is a `.json` file exactly two levels under
/// the status root, provided the id is a valid one.
pub proof fn lemma_commission_path_shape(
    status: Seq<char>,
    client_name: Seq<char>,
    id: Seq<char>,
    created_at: Seq<char>,
)
    requires
        valid_id(id),
    ensures
        two_level_json(
            commission_path(status, client_name, id, created_at),
            status_root(status),
        ),
{
    reveal_strlit("/");
    reveal_strlit("_");
    reveal_strlit(".json");
    lemma_commission_path_chars(status, client_name, id, created_at);
    let r = status_root(status);
    let sn = sanitize_name(client_name);
    let st = sanitize_ts(created_at);
    let path = commission_path(status, client_name, id, created_at);
    let rl = r.len() as int;
    let snl = sn.len() as int;
    let idl = id.len() as int;
    let stl = st.len() as int;
    // The status-root prefix.
    assert(is_prefix(r + seq!['/'], path)) by {
        assert(path.subrange(0, rl + 1) =~= r + seq!['/']);
    }
    // Exactly one separator after the root: the one ending the client
    // folder.
    let tail = path.subrange(rl + 1, path.len() as int);
    assert(exactly_one_slash(tail)) by {
        assert(tail[snl] == path[rl + 1 + snl]);
        assert(tail[snl] == '/');
        assert forall|j: int| 0 <= j < tail.len() && j != snl implies tail[j] != '/' by {
            assert(tail[j] == path[rl + 1 + j]);
            if j < snl {
                assert(path[rl + 1 + j] == sn[j]);
                assert(sn[j] == crate::file_storage::sanitize_name_char(client_name[j]));
            } else if j < snl + 1 + idl {
                assert(path[rl + 1 + j] == id[j - snl - 1]);
                assert(is_id_char(id[j - snl - 1]));
            } else if j == snl + 1 + idl {
                assert(path[rl + 1 + j] == '_');
            } else if j < snl + 2 + idl + stl {
                assert(path[rl + 1 + j] == st[j - snl - 2 - idl]);
                assert(st[j - snl - 2 - idl] == crate::file_storage::sanitize_ts_char(
                    created_at[j - snl - 2 - idl],
                ));
            } else {
                assert(path[rl + 1 + j] == ".json"@[j - (snl + 2 + idl + stl)]);
            }
        }
    }
    // The `.json` suffix.
    assert(is_suffix(".json"@, path)) by {
        assert forall|l: int|
            0 <= l < 5 implies path.subrange(path.len() - 5, path.len() as int)[l] == ".json"@[l]
             by {
            assert(path.subrange(path.len() - 5, path.len() as int)[l] == path[path.len() - 5
                + l]);
            assert(path[rl + snl + idl + stl + 3 + l] == ".json"@[l]);
        }
        assert(path.subrange(path.len() - 5, path.len() as int) =~= ".json"@);
    }
}

/// An entry passing the two-level filter appears in the listing, as its
/// path and text.
proof fn lemma_listing_mem(es: Seq<EntryV>, root: Seq<char>, k: int)
    requires
        0 <= k < es.len(),
        two_level_entry(es[k], root),
    ensures
        exists|j: int|
            0 <= j < two_level_listing(es, root).len() && #[trigger] two_level_listing(es, root)[j]
                == (es[k].path, es[k].data->Text_0),
{
    let pred = |e: EntryV| two_level_entry(e, root);
    es.lemma_filter_contains(pred, k);
    let fl = es.filter(pred);
    assert(fl.contains(es[k]));
    let j = choose|j: int| 0 <= j < fl.len() && #[trigger] fl[j] == es[k];
    assert(two_level_listing(es, root)[j] == (fl[j].path, fl[j].data->Text_0));
}

/// Each listed pair is the path and text of some entry of the store that
/// passes the two-level filter.
proof fn lemma_listing_src(es: Seq<EntryV>, root: Seq<char>, j: int)
    requires
        0 <= j < two_level_listing(es, root).len(),
    ensures
        exists|k: int|
            0 <= k < es.len() && two_level_entry(#[trigger] es[k], root) && two_level_listing(
                es,
                root,
            )[j] == (es[k].path, es[k].data->Text_0),
{
    let pred = |e: EntryV| two_level_entry(e, root);
    let fl = es.filter(pred);
    es.lemma_filter_pred(pred, j);
    assert(fl.contains(fl[j]));
    es.lemma_filter_contains_rev(pred, fl[j]);
    let k = choose|k: int| 0 <= k < es.len() && #[trigger] es[k] == fl[j];
    assert(two_level_listing(es, root)[j] == (fl[j].path, fl[j].data->Text_0));
    assert(two_level_entry(es[k], root));
}

/// A record read from a prefix of the listing is read from the whole.
proof fn lemma_parsed_mono(prs: Seq<(Seq<char>, Seq<char>)>, k: int, m: CommissionView)
    requires
        0 <= k <= prs.len(),
        prs.take(k).filter_map(
            |pr: (Seq<char>, Seq<char>)| spec_parse_commission_text(pr.1),
        ).contains(m),
    ensures
        parsed_commissions(prs).contains(m),
    decreases prs.len() - k,
{
    let f = |pr: (Seq<char>, Seq<char>)| spec_parse_commission_text(pr.1);
    if k == prs.len() {
        assert(prs.take(k) =~= prs);
    } else {
        prs.lemma_filter_map_take_succ(f, k);
        let a = prs.take(k).filter_map(f);
        let i = choose|i: int| 0 <= i < a.len() && #[trigger] a[i] == m;
        assert(prs.take(k + 1).filter_map(f)[i] == m);
        lemma_parsed_mono(prs, k + 1, m);
    }
}

/// A pair of the listing whose text reads as a commission contributes that
/// record to the parsed listing.
proof fn lemma_parsed_contains(prs: Seq<(Seq<char>, Seq<char>)>, j: int)
    requires
        0 <= j < prs.len(),
        spec_parse_commission_text(prs[j].1) is Some,
    ensures
        parsed_commissions(prs).contains(spec_parse_commission_text(prs[j].1)->Some_0),
{
    let f = |pr: (Seq<char>, Seq<char>)| spec_parse_commission_text(pr.1);
    let m = spec_parse_commission_text(prs[j].1)->Some_0;
    prs.lemma_filter_map_take_succ(f, j);
    let a = prs.take(j).filter_map(f);
    assert(prs.take(j + 1).filter_map(f) == a + seq![m]);
    assert(prs.take(j + 1).filter_map(f)[a.len() as int] == m);
    lemma_parsed_mono(prs, j + 1, m);
}

/// A commission read from a record text fits the machine integer range of
/// prices.
proof fn lemma_parsed_price_range(t: Seq<char>)
    requires
        spec_parse_commission_text(t) is Some,
    ensures
        i64::MIN <= spec_parse_commission_text(t)->Some_0.price_cents <= i64::MAX,
{
}

/// Moving the only pending record carrying an id to `completed` makes the
/// record, with its new status and the move's timestamp, part of the
/// completed listing, and leaves no record with that id in the pending
/// listing.
pub proof fn lemma_move_pending_to_completed(es: Seq<EntryV>, id: Seq<char>, now: Seq<char>)
    requires
        paths_unique(es),
        valid_id(id),
        first_match(two_level_listing(es, status_root("pending"@)), id) is Some,
        forall|j: int|
            0 <= j < two_level_listing(es, status_root("pending"@)).len() && pair_matches(
                #[trigger] two_level_listing(es, status_root("pending"@))[j],
                id,
            ) ==> two_level_listing(es, status_root("pending"@))[j].0 == first_match(
                two_level_listing(es, status_root("pending"@)),
                id,
            )->Some_0.0,
    ensures
        ({
            let pm = first_match(two_level_listing(es, status_root("pending"@)), id)->Some_0;
            let upd = moved_record(pm.1, "completed"@, now);
            let es2 = entries_after_move(es, pm.0, upd);
            &&& upd.status == "completed"@
            &&& upd.updated_at == now
            &&& parsed_commissions(two_level_listing(es2, status_root("completed"@))).contains(
                upd,
            )
            &&& forall|j: int|
                0 <= j < two_level_listing(es2, status_root("pending"@)).len()
                    ==> !pair_matches(
                    #[trigger] two_level_listing(es2, status_root("pending"@))[j],
                    id,
                )
        }),
{
    reveal_strlit("pending");
    reveal_strlit("completed");
    reveal_strlit("pendings");
    reveal_strlit("history");
    assert("pending"@.len() == 7);
    assert("completed"@.len() == 9);
    assert(status_root("pending"@) == "pendings"@);
    assert(status_root("completed"@) == "history"@);
    let prs = two_level_listing(es, "pendings"@);
    let pm = first_match(prs, id)->Some_0;
    let upd = moved_record(pm.1, "completed"@, now);
    let newpath = save_path(upd);
    let txt = commission_json_text(upd);
    lemma_first_match_mem(prs, id);
    let j0 = choose|j: int|
        0 <= j < prs.len() && (#[trigger] prs[j]).0 == pm.0 && spec_parse_commission_text(
            prs[j].1,
        ) == Some(pm.1) && pm.1.id == id;
    lemma_listing_src(es, "pendings"@, j0);
    let k0 = choose|k: int|
        0 <= k < es.len() && two_level_entry(#[trigger] es[k], "pendings"@) && two_level_listing(
            es,
            "pendings"@,
        )[j0] == (es[k].path, es[k].data->Text_0);
    assert(es[k0].path == pm.0);
    assert(is_prefix("pendings"@ + seq!['/'], pm.0));
    // The new path lies under `history/`, so it differs from the old one.
    lemma_commission_path_shape("completed"@, upd.client_name, upd.id, upd.created_at);
    assert(two_level_json(newpath, "history"@));
    assert(newpath != pm.0) by {
        assert(is_prefix("history"@ + seq!['/'], newpath));
        assert(newpath.subrange(0, 8)[0] == newpath[0]);
        assert(newpath[0] == ("history"@ + seq!['/'])[0]);
        assert(pm.0.subrange(0, 9)[0] == pm.0[0]);
        assert(pm.0[0] == ("pendings"@ + seq!['/'])[0]);
    }
    lemma_parsed_price_range(prs[j0].1);
    lemma_commission_round_trip(upd);
    let es1 = entries_after_write(es, newpath, FileDataView::Text(txt));
    let es2 = entries_after_delete(es1, pm.0);
    assert(entries_after_move(es, pm.0, upd) == es2);
    lemma_write_props(es, newpath, FileDataView::Text(txt));
    lemma_delete_props(es1, pm.0);
    // The rewritten record stands in the completed listing.
    assert(has_path_in(es2, newpath));
    assert(data_in(es2, newpath) == FileDataView::Text(txt));
    let kn = crate::store::idx_of(es2, newpath);
    assert(es2[kn].path == newpath);
    assert(es2[kn].data == FileDataView::Text(txt)) by {
        crate::store::lemma_idx_unique(es2, newpath, kn);
    }
    assert(two_level_entry(es2[kn], "history"@));
    lemma_listing_mem(es2, "history"@, kn);
    let jn = choose|j: int|
        0 <= j < two_level_listing(es2, "history"@).len() && #[trigger] two_level_listing(
            es2,
            "history"@,
        )[j] == (es2[kn].path, es2[kn].data->Text_0);
    lemma_parsed_contains(two_level_listing(es2, "history"@), jn);
    // Nothing under `pendings/` reads as the id any more.
    assert forall|j: int|
        0 <= j < two_level_listing(es2, "pendings"@).len() implies !pair_matches(
        #[trigger] two_level_listing(es2, "pendings"@)[j],
        id,
    ) by {
        if pair_matches(two_level_listing(es2, "pendings"@)[j], id) {
            lemma_listing_src(es2, "pendings"@, j);
            let k2 = choose|k: int|
                0 <= k < es2.len() && two_level_entry(#[trigger] es2[k], "pendings"@)
                    && two_level_listing(es2, "pendings"@)[j] == (
                es2[k].path,
                es2[k].data->Text_0,
                );
            let e = es2[k2];
            // The deleted path is gone.
            assert(e.path != pm.0) by {
                if e.path == pm.0 {
                    assert(has_path_in(es2, pm.0));
                }
            }
            // The entry comes from the written store; the written path is
            // under `history/`, not `pendings/`.
            assert(es2[k2] == es1[crate::store::delete_src(es1, pm.0, k2)]);
            let k1 = crate::store::delete_src(es1, pm.0, k2);
            assert(e.path != newpath) by {
                if e.path == newpath {
                    assert(es1[k1] == (EntryV { path: newpath, data: FileDataView::Text(txt) }));
                    assert(is_prefix("pendings"@ + seq!['/'], newpath));
                    assert(newpath.subrange(0, 9)[0] == newpath[0]);
                    assert(newpath[0] == ("pendings"@ + seq!['/'])[0]);
                    assert(is_prefix("history"@ + seq!['/'], newpath));
                    assert(newpath.subrange(0, 8)[0] == newpath[0]);
                    assert(newpath[0] == ("history"@ + seq!['/'])[0]);
                }
            }
            // So it already stood in the old store, and its pair was a
            // match there: by uniqueness it was the moved file after all.
            assert(es1[k1] == es[k1]);
            lemma_listing_mem(es, "pendings"@, k1);
            let j1 = choose|jj: int|
                0 <= jj < two_level_listing(es, "pendings"@).len()
                    && #[trigger] two_level_listing(es, "pendings"@)[jj] == (
                es[k1].path,
                es[k1].data->Text_0,
                );
            assert(pair_matches(prs[j1], id));
            assert(prs[j1].0 == pm.0);
            assert(e.path == pm.0);
        }
    }
}

/// A move never touches a file other than the one it found, which carries
/// exactly the given id, and the one it writes.
pub proof fn lemma_move_touches_only_own_files(
    es: Seq<EntryV>,
    id: Seq<char>,
    from: Seq<char>,
    to: Seq<char>,
    now: Seq<char>,
)
    requires
        paths_unique(es),
        first_match(two_level_listing(es, status_root(from)), id) is Some,
    ensures
        ({
            let pm = first_match(two_level_listing(es, status_root(from)), id)->Some_0;
            let upd = moved_record(pm.1, to, now);
            let es2 = entries_after_move(es, pm.0, upd);
            &&& pm.1.id == id
            &&& forall|q: Seq<char>|
                q != pm.0 && q != save_path(upd) && has_path_in(es, q) ==> #[trigger] has_path_in(
                    es2,
                    q,
                ) && data_in(es2, q) == data_in(es, q)
        }),
{
    let pm = first_match(two_level_listing(es, status_root(from)), id)->Some_0;
    let upd = moved_record(pm.1, to, now);
    let newpath = save_path(upd);
    let txt = commission_json_text(upd);
    lemma_first_match_mem(two_level_listing(es, status_root(from)), id);
    lemma_write_props(es, newpath, FileDataView::Text(txt));
    let es1 = entries_after_write(es, newpath, FileDataView::Text(txt));
    lemma_delete_props(es1, pm.0);
    let es2 = entries_after_move(es, pm.0, upd);
    assert forall|q: Seq<char>|
        q != pm.0 && q != newpath && has_path_in(es, q) implies #[trigger] has_path_in(es2, q)
        && data_in(es2, q) == data_in(es, q) by {
        assert(has_path_in(es1, q) && data_in(es1, q) == data_in(es, q));
    }
}

} // verus!
