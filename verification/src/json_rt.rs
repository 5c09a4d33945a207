//! The round trip of the record format: the reader returns exactly the
//! members the writer spelled out. This is what makes a saved record come
//! back equal when its file is read again.

use vstd::prelude::*;
use crate::json::{arr_items_text, esc_char, escape, is_num_char, is_ws, member_text,
    members_text, num_end, obj_text, scalar_text, sp_arr_items, sp_members, sp_obj, sp_scalar,
    sp_str_body, sp_value, str_text, val_text, ws_end, MemberV, ScalarV, ValV};

verus! {

/// A number lexeme the writer may hold: non-empty, starting as a JSON
/// number starts, all characters from the number alphabet.
pub open spec fn wf_num_lexeme(l: Seq<char>) -> bool {
    &&& l.len() >= 1
    &&& (l[0] == '-' || ('0' <= l[0] && l[0] <= '9'))
    &&& (forall|i: int| 0 <= i < l.len() ==> is_num_char(l[i]))
}

/// A scalar the writer renders unambiguously.
pub open spec fn wf_scalar(v: ScalarV) -> bool {
    match v {
        ScalarV::Num(l) => wf_num_lexeme(l),
        _ => true,
    }
}

/// A member value the writer renders unambiguously.
pub open spec fn wf_val(v: ValV) -> bool {
    match v {
        ValV::Scalar(x) => wf_scalar(x),
        ValV::Arr(a) => forall|i: int| 0 <= i < a.len() ==> wf_scalar(#[trigger] a[i]),
    }
}

/// An object the writer renders unambiguously.
pub open spec fn wf_members(ms: Seq<MemberV>) -> bool {
    forall|i: int| 0 <= i < ms.len() ==> wf_val(#[trigger] ms[i].val)
}

/// Indexing a concatenation.
proof fn lemma_app_idx(a: Seq<char>, b: Seq<char>, k: int)
    ensures
        0 <= k < a.len() + b.len() ==> (a + b)[k] == if k < a.len() {
            a[k]
        } else {
            b[k - a.len()]
        },
{
}

/// One character of `t`, read off a matching subrange of `s`.
proof fn lemma_sub_at(s: Seq<char>, i: int, t: Seq<char>, k: int)
    requires
        0 <= i,
        i + t.len() <= s.len(),
        s.subrange(i, i + t.len()) == t,
        0 <= k < t.len(),
    ensures
        s[i + k] == t[k],
{
    assert(s.subrange(i, i + t.len())[k] == s[i + k]);
}

/// A run of number characters ended by a non-number character is exactly
/// the number lexeme the tokenizer takes.
proof fn lemma_num_run(s: Seq<char>, i: int, k: int)
    requires
        0 <= i <= k <= s.len(),
        forall|j: int| i <= j < k ==> is_num_char(s[j]),
        k == s.len() || !is_num_char(s[k]),
    ensures
        num_end(s, i) == k,
    decreases k - i,
{
    if i < k {
        lemma_num_run(s, i + 1, k);
    }
}

/// Position `i` holds no whitespace, so the whitespace skip stays put.
proof fn lemma_ws_stay(s: Seq<char>, i: int)
    requires
        0 <= i,
        i < s.len() ==> !is_ws(s[i]),
    ensures
        ws_end(s, i) == i,
{
}

/// The escaped spelling of `x` followed by a closing quote reads back as
/// `x`, whatever stands before or after.
proof fn lemma_parse_escaped(s: Seq<char>, i: int, x: Seq<char>, acc: Seq<char>)
    requires
        0 <= i,
        i + escape(x).len() + 1 <= s.len(),
        s.subrange(i, i + escape(x).len() + 1) == escape(x) + seq!['"'],
    ensures
        sp_str_body(s, i, acc) == Some((acc + x, i + escape(x).len() + 1)),
    decreases x.len(),
{
    let ex = escape(x);
    let full = ex + seq!['"'];
    if x.len() == 0 {
        assert(ex == Seq::<char>::empty());
        assert(full =~= seq!['"']);
        lemma_sub_at(s, i, full, 0);
        assert(s[i + 0] == '"');
        assert(acc + x =~= acc);
    } else {
        let c = x[0];
        let x1 = x.skip(1);
        let e0 = esc_char(c);
        let r1 = escape(x1);
        assert(ex == e0 + r1);
        // Each character of the first escape stands at its place in `s`.
        assert forall|k: int| 0 <= k < e0.len() implies s[i + k] == e0[k] by {
            lemma_sub_at(s, i, full, k);
            lemma_app_idx(ex, seq!['"'], k);
            lemma_app_idx(e0, r1, k);
        }
        // The rest of the text matches the escape of the rest of `x`.
        let o = e0.len() as int;
        assert(s.subrange(i + o, i + o + r1.len() + 1) == r1 + seq!['"']) by {
            assert forall|k: int|
                0 <= k < r1.len() + 1 implies s.subrange(i + o, i + o + r1.len() + 1)[k] == (r1
                + seq!['"'])[k] by {
                assert(s.subrange(i + o, i + o + r1.len() + 1)[k] == s[i + o + k]);
                lemma_sub_at(s, i, full, o + k);
                lemma_app_idx(ex, seq!['"'], o + k);
                lemma_app_idx(e0, r1, o + k);
                lemma_app_idx(r1, seq!['"'], k);
            }
            assert(s.subrange(i + o, i + o + r1.len() + 1) =~= r1 + seq!['"']);
        }
        if c == '"' {
            assert(e0 =~= seq!['\\', '"']);
            assert(e0[0] == '\\' && e0[1] == '"');
            assert(s[i + 0] == '\\');
            assert(s[i + 1] == '"');
            lemma_parse_escaped(s, i + 2, x1, acc.push('"'));
            assert(acc.push(c) + x1 =~= acc + x);
        } else if c == '\\' {
            assert(e0 =~= seq!['\\', '\\']);
            assert(e0[0] == '\\' && e0[1] == '\\');
            assert(s[i + 0] == '\\');
            assert(s[i + 1] == '\\');
            lemma_parse_escaped(s, i + 2, x1, acc.push('\\'));
            assert(acc.push(c) + x1 =~= acc + x);
        } else if c == '\n' {
            assert(e0 =~= seq!['\\', 'n']);
            assert(e0[0] == '\\' && e0[1] == 'n');
            assert(s[i + 0] == '\\');
            assert(s[i + 1] == 'n');
            lemma_parse_escaped(s, i + 2, x1, acc.push('\n'));
            assert(acc.push(c) + x1 =~= acc + x);
        } else if c == '\t' {
            assert(e0 =~= seq!['\\', 't']);
            assert(e0[0] == '\\' && e0[1] == 't');
            assert(s[i + 0] == '\\');
            assert(s[i + 1] == 't');
            lemma_parse_escaped(s, i + 2, x1, acc.push('\t'));
            assert(acc.push(c) + x1 =~= acc + x);
        } else if c == '\r' {
            assert(e0 =~= seq!['\\', 'r']);
            assert(e0[0] == '\\' && e0[1] == 'r');
            assert(s[i + 0] == '\\');
            assert(s[i + 1] == 'r');
            lemma_parse_escaped(s, i + 2, x1, acc.push('\r'));
            assert(acc.push(c) + x1 =~= acc + x);
        } else if c == '\u{8}' {
            assert(e0 =~= seq!['\\', 'b']);
            assert(e0[0] == '\\' && e0[1] == 'b');
            assert(s[i + 0] == '\\');
            assert(s[i + 1] == 'b');
            assert(8u8 as char == '\u{8}');
            lemma_parse_escaped(s, i + 2, x1, acc.push('\u{8}'));
            assert(acc.push(c) + x1 =~= acc + x);
        } else if c == '\u{c}' {
            assert(e0 =~= seq!['\\', 'f']);
            assert(e0[0] == '\\' && e0[1] == 'f');
            assert(s[i + 0] == '\\');
            assert(s[i + 1] == 'f');
            assert(12u8 as char == '\u{c}');
            lemma_parse_escaped(s, i + 2, x1, acc.push('\u{c}'));
            assert(acc.push(c) + x1 =~= acc + x);
        } else {
            assert(e0 =~= seq![c]);
            assert(e0[0] == c);
            assert(s[i + 0] == c);
            lemma_parse_escaped(s, i + 1, x1, acc.push(c));
            assert(acc.push(c) + x1 =~= acc + x);
        }
    }
}

/// The first character of a scalar's spelling: never whitespace, a bracket,
/// a comma or a brace.
proof fn lemma_scalar_text_first(v: ScalarV)
    requires
        wf_scalar(v),
    ensures
        scalar_text(v).len() >= 1,
        !is_ws(scalar_text(v)[0]),
        scalar_text(v)[0] != ']',
        scalar_text(v)[0] != ',',
        scalar_text(v)[0] != '}',
        scalar_text(v)[0] != '[',
{
    reveal_strlit("null");
    reveal_strlit("true");
    reveal_strlit("false");
    match v {
        ScalarV::Null => {
            assert(scalar_text(v)[0] == 'n');
        },
        ScalarV::Bool(b) => {
            if b {
                assert(scalar_text(v)[0] == 't');
            } else {
                assert(scalar_text(v)[0] == 'f');
            }
        },
        ScalarV::Num(l) => {
            assert(scalar_text(v)[0] == l[0]);
        },
        ScalarV::Str(x) => {
            lemma_app_idx(seq!['"'] + escape(x), seq!['"'], 0);
            lemma_app_idx(seq!['"'], escape(x), 0);
            assert(scalar_text(v)[0] == '"');
        },
    }
}

/// A scalar's spelling followed by a separator reads back as that scalar.
proof fn lemma_parse_scalar_text(s: Seq<char>, i: int, v: ScalarV, follow: char)
    requires
        wf_scalar(v),
        follow == ',' || follow == ']' || follow == '}',
        0 <= i,
        i + scalar_text(v).len() + 1 <= s.len(),
        s.subrange(i, i + scalar_text(v).len() + 1) == scalar_text(v) + seq![follow],
    ensures
        sp_scalar(s, i) == Some((v, i + scalar_text(v).len())),
{
    let t = scalar_text(v);
    let full = t + seq![follow];
    assert forall|k: int| 0 <= k < t.len() implies s[i + k] == t[k] by {
        lemma_sub_at(s, i, full, k);
        lemma_app_idx(t, seq![follow], k);
    }
    lemma_sub_at(s, i, full, t.len() as int);
    lemma_app_idx(t, seq![follow], t.len() as int);
    assert(s[i + t.len()] == follow);
    match v {
        ScalarV::Null => {
            reveal_strlit("null");
            assert(s[i + 0] == t[0]);
            assert(s.subrange(i, i + 4) =~= "null"@);
        },
        ScalarV::Bool(b) => {
            reveal_strlit("true");
            reveal_strlit("false");
            if b {
                assert(s[i + 0] == t[0]);
                assert(s.subrange(i, i + 4) =~= "true"@);
            } else {
                assert(s[i + 0] == t[0]);
                assert(s.subrange(i, i + 5) =~= "false"@);
            }
        },
        ScalarV::Num(l) => {
            reveal_strlit("true");
            reveal_strlit("false");
            reveal_strlit("null");
            assert(s[i + 0] == l[0]);
            assert(s[i] != '"' && s[i] != 't' && s[i] != 'f' && s[i] != 'n');
            assert forall|j: int| i <= j < i + l.len() implies is_num_char(s[j]) by {
                assert(s[i + (j - i)] == t[j - i]);
            }
            assert(!is_num_char(s[i + l.len()]));
            lemma_num_run(s, i, i + l.len());
            assert(s.subrange(i, i + l.len()) =~= l);
        },
        ScalarV::Str(x) => {
            let ex = escape(x);
            assert(t == seq!['"'] + ex + seq!['"']);
            assert(s[i + 0] == '"') by {
                lemma_app_idx(seq!['"'] + ex, seq!['"'], 0);
                lemma_app_idx(seq!['"'], ex, 0);
            }
            assert(s.subrange(i + 1, i + 1 + ex.len() + 1) == ex + seq!['"']) by {
                assert forall|k: int|
                    0 <= k < ex.len() + 1 implies s.subrange(i + 1, i + 1 + ex.len() + 1)[k]
                    == (ex + seq!['"'])[k] by {
                    assert(s.subrange(i + 1, i + 1 + ex.len() + 1)[k] == s[i + 1 + k]);
                    assert(s[i + 1 + k] == t[1 + k]);
                    lemma_app_idx(seq!['"'] + ex, seq!['"'], 1 + k);
                    lemma_app_idx(seq!['"'], ex, 1 + k);
                    lemma_app_idx(ex, seq!['"'], k);
                }
                assert(s.subrange(i + 1, i + 1 + ex.len() + 1) =~= ex + seq!['"']);
            }
            lemma_parse_escaped(s, i + 1, x, Seq::empty());
            assert(Seq::<char>::empty() + x =~= x);
        },
    }
}

/// The items of a non-empty array, spelled out and followed by `]`, read
/// back as those items.
proof fn lemma_parse_arr_items_text(s: Seq<char>, i: int, a: Seq<ScalarV>, acc: Seq<ScalarV>)
    requires
        a.len() >= 1,
        forall|k: int| 0 <= k < a.len() ==> wf_scalar(#[trigger] a[k]),
        0 <= i,
        i + arr_items_text(a).len() + 1 <= s.len(),
        s.subrange(i, i + arr_items_text(a).len() + 1) == arr_items_text(a) + seq![']'],
    ensures
        sp_arr_items(s, i, acc) == Some((acc + a, i + arr_items_text(a).len() + 1)),
    decreases a.len(),
{
    let t = arr_items_text(a);
    let full = t + seq![']'];
    let st = scalar_text(a[0]);
    lemma_scalar_text_first(a[0]);
    if a.len() == 1 {
        assert(t == st);
        assert(s[i + 0] == st[0]) by {
            lemma_sub_at(s, i, full, 0);
            lemma_app_idx(t, seq![']'], 0);
        }
        lemma_ws_stay(s, i);
        lemma_parse_scalar_text(s, i, a[0], ']');
        let p = i + st.len();
        assert(s[p] == ']') by {
            lemma_sub_at(s, i, full, st.len() as int);
            lemma_app_idx(t, seq![']'], st.len() as int);
            assert(s[i + st.len()] == full[st.len() as int]);
        }
        lemma_ws_stay(s, p);
        assert(acc.push(a[0]) =~= acc + a);
    } else {
        let a1 = a.skip(1);
        let t1 = arr_items_text(a1);
        assert(t == st + seq![','] + t1);
        assert forall|k: int| 0 <= k < st.len() + 1 implies s[i + k] == (st + seq![','])[k] by {
            lemma_sub_at(s, i, full, k);
            lemma_app_idx(t, seq![']'], k);
            lemma_app_idx(st + seq![','], t1, k);
        }
        assert(s[i + 0] == st[0]) by {
            lemma_app_idx(st, seq![','], 0);
        }
        lemma_ws_stay(s, i);
        assert(s.subrange(i, i + st.len() + 1) == st + seq![',']) by {
            assert forall|k: int|
                0 <= k < st.len() + 1 implies s.subrange(i, i + st.len() + 1)[k] == (st
                + seq![','])[k] by {
                assert(s.subrange(i, i + st.len() + 1)[k] == s[i + k]);
            }
            assert(s.subrange(i, i + st.len() + 1) =~= st + seq![',']);
        }
        lemma_parse_scalar_text(s, i, a[0], ',');
        let p = i + st.len();
        assert(s[p] == ',') by {
            lemma_app_idx(st, seq![','], st.len() as int);
            assert(s[i + st.len()] == (st + seq![','])[st.len() as int]);
        }
        lemma_ws_stay(s, p);
        assert(s.subrange(p + 1, p + 1 + t1.len() + 1) == t1 + seq![']']) by {
            assert forall|k: int|
                0 <= k < t1.len() + 1 implies s.subrange(p + 1, p + 1 + t1.len() + 1)[k] == (t1
                + seq![']'])[k] by {
                assert(s.subrange(p + 1, p + 1 + t1.len() + 1)[k] == s[p + 1 + k]);
                lemma_sub_at(s, i, full, st.len() + 1 + k);
                lemma_app_idx(t, seq![']'], st.len() + 1 + k);
                lemma_app_idx(st + seq![','], t1, st.len() + 1 + k);
                lemma_app_idx(t1, seq![']'], k);
            }
            assert(s.subrange(p + 1, p + 1 + t1.len() + 1) =~= t1 + seq![']']);
        }
        assert forall|k: int| 0 <= k < a1.len() implies wf_scalar(#[trigger] a1[k]) by {
            assert(a1[k] == a[k + 1]);
        }
        lemma_parse_arr_items_text(s, p + 1, a1, acc.push(a[0]));
        assert(acc.push(a[0]) + a1 =~= acc + a);
    }
}

/// A member value's spelling followed by a separator reads back as that
/// value.
proof fn lemma_parse_value_text(s: Seq<char>, i: int, v: ValV, follow: char)
    requires
        wf_val(v),
        follow == ',' || follow == '}',
        0 <= i,
        i + val_text(v).len() + 1 <= s.len(),
        s.subrange(i, i + val_text(v).len() + 1) == val_text(v) + seq![follow],
    ensures
        sp_value(s, i) == Some((v, i + val_text(v).len())),
{
    let t = val_text(v);
    let full = t + seq![follow];
    match v {
        ValV::Scalar(x) => {
            lemma_scalar_text_first(x);
            assert(s[i + 0] == scalar_text(x)[0]) by {
                lemma_sub_at(s, i, full, 0);
                lemma_app_idx(t, seq![follow], 0);
            }
            lemma_parse_scalar_text(s, i, x, follow);
            assert(s[i] != '[');
        },
        ValV::Arr(a) => {
            assert(s[i + 0] == '[') by {
                lemma_sub_at(s, i, full, 0);
                lemma_app_idx(t, seq![follow], 0);
                lemma_app_idx(seq!['['] + arr_items_text(a), seq![']'], 0);
                lemma_app_idx(seq!['['], arr_items_text(a), 0);
            }
            if a.len() == 0 {
                assert(a =~= Seq::<ScalarV>::empty());
                assert(arr_items_text(a) == Seq::<char>::empty());
                assert(t =~= seq!['[', ']']);
                assert(s[i + 1] == ']') by {
                    lemma_sub_at(s, i, full, 1);
                    lemma_app_idx(t, seq![follow], 1);
                }
                lemma_ws_stay(s, i + 1);
            } else {
                let t1 = arr_items_text(a);
                assert(t == seq!['['] + t1 + seq![']']);
                lemma_scalar_text_first(a[0]);
                assert(t1[0] == scalar_text(a[0])[0]) by {
                    if a.len() == 1 {
                    } else {
                        assert(t1 == scalar_text(a[0]) + seq![','] + arr_items_text(a.skip(1)));
                        lemma_app_idx(
                            scalar_text(a[0]) + seq![','],
                            arr_items_text(a.skip(1)),
                            0,
                        );
                        lemma_app_idx(scalar_text(a[0]), seq![','], 0);
                    }
                }
                assert(s[i + 1] == t1[0]) by {
                    lemma_sub_at(s, i, full, 1);
                    lemma_app_idx(t, seq![follow], 1);
                    lemma_app_idx(seq!['['] + t1, seq![']'], 1);
                    lemma_app_idx(seq!['['], t1, 1);
                }
                lemma_ws_stay(s, i + 1);
                assert(s[i + 1] != ']');
                assert(s.subrange(i + 1, i + 1 + t1.len() + 1) == t1 + seq![']']) by {
                    assert forall|k: int|
                        0 <= k < t1.len() + 1 implies s.subrange(i + 1, i + 1 + t1.len() + 1)[k]
                        == (t1 + seq![']'])[k] by {
                        assert(s.subrange(i + 1, i + 1 + t1.len() + 1)[k] == s[i + 1 + k]);
                        lemma_sub_at(s, i, full, 1 + k);
                        lemma_app_idx(t, seq![follow], 1 + k);
                        lemma_app_idx(seq!['['] + t1, seq![']'], 1 + k);
                        lemma_app_idx(seq!['['], t1, 1 + k);
                        lemma_app_idx(t1, seq![']'], k);
                    }
                    assert(s.subrange(i + 1, i + 1 + t1.len() + 1) =~= t1 + seq![']']);
                }
                lemma_parse_arr_items_text(s, i + 1, a, Seq::empty());
                assert(Seq::<ScalarV>::empty() + a =~= a);
            }
        },
    }
}

/// The first character of a value's spelling is never whitespace.
proof fn lemma_val_text_first(v: ValV)
    requires
        wf_val(v),
    ensures
        val_text(v).len() >= 1,
        !is_ws(val_text(v)[0]),
{
    match v {
        ValV::Scalar(x) => {
            lemma_scalar_text_first(x);
        },
        ValV::Arr(a) => {
            lemma_app_idx(seq!['['] + arr_items_text(a), seq![']'], 0);
            lemma_app_idx(seq!['['], arr_items_text(a), 0);
            assert(val_text(v)[0] == '[');
        },
    }
}

/// The first character of a member's spelling is the key's opening quote.
proof fn lemma_member_text_first(m: MemberV)
    ensures
        member_text(m).len() >= 1,
        member_text(m)[0] == '"',
{
    let kt = str_text(m.key);
    lemma_app_idx(kt + seq![':'], val_text(m.val), 0);
    lemma_app_idx(kt, seq![':'], 0);
    lemma_app_idx(seq!['"'] + escape(m.key), seq!['"'], 0);
    lemma_app_idx(seq!['"'], escape(m.key), 0);
}

/// The members of a non-empty object, spelled out and followed by `}`,
/// read back as those members.
#[verifier::rlimit(80)]
proof fn lemma_parse_members_text(s: Seq<char>, i: int, ms: Seq<MemberV>, acc: Seq<MemberV>)
    requires
        ms.len() >= 1,
        wf_members(ms),
        0 <= i,
        i + members_text(ms).len() + 1 <= s.len(),
        s.subrange(i, i + members_text(ms).len() + 1) == members_text(ms) + seq!['}'],
    ensures
        sp_members(s, i, acc) == Some((acc + ms, i + members_text(ms).len() + 1)),
    decreases ms.len(),
{
    let t = members_text(ms);
    let full = t + seq!['}'];
    let m0 = ms[0];
    let mt = member_text(m0);
    let sep: char = if ms.len() == 1 {
        '}'
    } else {
        ','
    };
    // The text at `i` is the first member's text followed by the separator.
    assert forall|k: int| 0 <= k < mt.len() + 1 implies s[i + k] == (mt + seq![sep])[k] by {
        lemma_sub_at(s, i, full, k);
        lemma_app_idx(t, seq!['}'], k);
        if ms.len() > 1 {
            lemma_app_idx(mt + seq![','], members_text(ms.skip(1)), k);
            lemma_app_idx(mt, seq![','], k);
        }
        lemma_app_idx(mt, seq![sep], k);
    }
    // Walk the member: key string, colon, value.
    let kt = str_text(m0.key);
    let vt = val_text(m0.val);
    assert(mt == kt + seq![':'] + vt);
    lemma_member_text_first(m0);
    assert(s[i + 0] == '"') by {
        lemma_app_idx(mt, seq![sep], 0);
    }
    lemma_ws_stay(s, i);
    // The key reads back.
    let ek = escape(m0.key);
    assert(s.subrange(i + 1, i + 1 + ek.len() + 1) == ek + seq!['"']) by {
        assert forall|k: int|
            0 <= k < ek.len() + 1 implies s.subrange(i + 1, i + 1 + ek.len() + 1)[k] == (ek
            + seq!['"'])[k] by {
            assert(s.subrange(i + 1, i + 1 + ek.len() + 1)[k] == s[i + 1 + k]);
            lemma_app_idx(mt, seq![sep], 1 + k);
            lemma_app_idx(kt + seq![':'], vt, 1 + k);
            lemma_app_idx(kt, seq![':'], 1 + k);
            lemma_app_idx(seq!['"'] + ek, seq!['"'], 1 + k);
            lemma_app_idx(seq!['"'], ek, 1 + k);
            lemma_app_idx(ek, seq!['"'], k);
        }
        assert(s.subrange(i + 1, i + 1 + ek.len() + 1) =~= ek + seq!['"']);
    }
    lemma_parse_escaped(s, i + 1, m0.key, Seq::empty());
    assert(Seq::<char>::empty() + m0.key =~= m0.key);
    let p = i + 1 + ek.len() + 1;
    assert(p == i + kt.len());
    assert(s[p] == ':') by {
        assert(s[i + kt.len()] == (mt + seq![sep])[kt.len() as int]);
        lemma_app_idx(mt, seq![sep], kt.len() as int);
        lemma_app_idx(kt + seq![':'], vt, kt.len() as int);
        lemma_app_idx(kt, seq![':'], kt.len() as int);
    }
    lemma_ws_stay(s, p);
    // The value reads back.
    assert(wf_val(m0.val));
    assert(s.subrange(p + 1, p + 1 + vt.len() + 1) == vt + seq![sep]) by {
        assert forall|k: int|
            0 <= k < vt.len() + 1 implies s.subrange(p + 1, p + 1 + vt.len() + 1)[k] == (vt
            + seq![sep])[k] by {
            assert(s.subrange(p + 1, p + 1 + vt.len() + 1)[k] == s[p + 1 + k]);
            assert(s[i + (kt.len() + 1 + k)] == (mt + seq![sep])[kt.len() + 1 + k]);
            lemma_app_idx(mt, seq![sep], kt.len() + 1 + k);
            if kt.len() + 1 + k < mt.len() {
                lemma_app_idx(kt + seq![':'], vt, kt.len() + 1 + k);
            }
            lemma_app_idx(vt, seq![sep], k);
        }
        assert(s.subrange(p + 1, p + 1 + vt.len() + 1) =~= vt + seq![sep]);
    }
    lemma_val_text_first(m0.val);
    assert(s[p + 1] == vt[0]) by {
        assert(s[i + (kt.len() as int + 1)] == (mt + seq![sep])[kt.len() as int + 1]);
        lemma_app_idx(mt, seq![sep], kt.len() as int + 1);
        lemma_app_idx(kt + seq![':'], vt, kt.len() as int + 1);
    }
    lemma_ws_stay(s, p + 1);
    lemma_parse_value_text(s, p + 1, m0.val, sep);
    let q = p + 1 + vt.len();
    assert(q == i + mt.len());
    assert(s[q] == sep) by {
        assert(s[i + mt.len()] == (mt + seq![sep])[mt.len() as int]);
        lemma_app_idx(mt, seq![sep], mt.len() as int);
    }
    lemma_ws_stay(s, q);
    if ms.len() == 1 {
        assert(acc.push(m0) =~= acc + ms) by {
            assert(ms =~= seq![m0]);
        }
    } else {
        let ms1 = ms.skip(1);
        let t1 = members_text(ms1);
        assert(t == mt + seq![','] + t1);
        assert(s.subrange(q + 1, q + 1 + t1.len() + 1) == t1 + seq!['}']) by {
            assert forall|k: int|
                0 <= k < t1.len() + 1 implies s.subrange(q + 1, q + 1 + t1.len() + 1)[k] == (t1
                + seq!['}'])[k] by {
                assert(s.subrange(q + 1, q + 1 + t1.len() + 1)[k] == s[q + 1 + k]);
                lemma_sub_at(s, i, full, mt.len() + 1 + k);
                lemma_app_idx(t, seq!['}'], mt.len() + 1 + k);
                lemma_app_idx(mt + seq![','], t1, mt.len() + 1 + k);
                lemma_app_idx(t1, seq!['}'], k);
            }
            assert(s.subrange(q + 1, q + 1 + t1.len() + 1) =~= t1 + seq!['}']);
        }
        assert(wf_members(ms1)) by {
            assert(forall|k: int| 0 <= k < ms1.len() ==> ms1[k] == ms[k + 1]);
        }
        lemma_parse_members_text(s, q + 1, ms1, acc.push(m0));
        assert(acc.push(m0) + ms1 =~= acc + ms);
    }
}

/// THE round trip: an object written by [`crate::json::obj_to_text`] reads
/// back, through [`crate::json::parse_obj_text`], as exactly the members it
/// was written from.
pub proof fn lemma_obj_round_trip(ms: Seq<MemberV>)
    requires
        wf_members(ms),
    ensures
        sp_obj(obj_text(ms)) == Some(ms),
{
    let s = obj_text(ms);
    let t = members_text(ms);
    assert(s == seq!['{'] + t + seq!['}']);
    assert(s[0] == '{') by {
        lemma_app_idx(seq!['{'] + t, seq!['}'], 0);
        lemma_app_idx(seq!['{'], t, 0);
    }
    lemma_ws_stay(s, 0);
    if ms.len() == 0 {
        assert(t == Seq::<char>::empty());
        assert(s =~= seq!['{', '}']);
        assert(s[1] == '}');
        lemma_ws_stay(s, 1);
        lemma_ws_stay(s, 2);
        assert(ws_end(s, 2) == s.len());
    } else {
        let m0 = ms[0];
        lemma_member_text_first(m0);
        assert(t[0] == '"') by {
            let mt = member_text(m0);
            if ms.len() == 1 {
                assert(t == mt);
            } else {
                assert(t == mt + seq![','] + members_text(ms.skip(1)));
                lemma_app_idx(mt + seq![','], members_text(ms.skip(1)), 0);
                lemma_app_idx(mt, seq![','], 0);
            }
        }
        assert(s[1] == t[0]) by {
            lemma_app_idx(seq!['{'] + t, seq!['}'], 1);
            lemma_app_idx(seq!['{'], t, 1);
        }
        lemma_ws_stay(s, 1);
        assert(s[1] != '}');
        assert(s.subrange(1, t.len() as int + 2) == t + seq!['}']) by {
            assert forall|k: int|
                0 <= k < t.len() + 1 implies s.subrange(1, t.len() as int + 2)[k] == (t
                + seq!['}'])[k] by {
                assert(s.subrange(1, t.len() as int + 2)[k] == s[1 + k]);
                lemma_app_idx(seq!['{'] + t, seq!['}'], 1 + k);
                lemma_app_idx(seq!['{'], t, 1 + k);
                lemma_app_idx(t, seq!['}'], k);
            }
            assert(s.subrange(1, t.len() as int + 2) =~= t + seq!['}']);
        }
        lemma_parse_members_text(s, 1, ms, Seq::empty());
        assert(Seq::<MemberV>::empty() + ms =~= ms);
        lemma_ws_stay(s, s.len() as int);
    }
}

} // verus!
