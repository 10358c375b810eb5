//! The wire format of the persisted records.
//!
//! The account index and the credential record are persisted as JSON text
//! in one canonical shape: fixed key order, optional fields written as
//! `null`, string content with `"` and `\` escaped.  The spec functions
//! here define that text exactly; the encoder produces it and the decoder
//! accepts nothing else, so decoding inverts encoding and a record that
//! does not round-trip is rejected rather than guessed at.

use vstd::prelude::*;
use crate::VaultError;
use crate::records::{
    accounts_view,
    has_user,
    opt_text,
    AccountInfo,
    AccountInfoV,
    AccountsList,
    Credentials,
    CredentialsV,
    IndexV,
};
use crate::text::{dec_nat, dec_rep, is_dec_digit, parse_i64, push_dec_i64, str_eq, text_at};

verus! {

/// The escaped form of one character inside a JSON string literal.
pub open spec fn esc1(c: char) -> Seq<char> {
    if c == '"' || c == '\\' {
        seq!['\\', c]
    } else {
        seq![c]
    }
}

/// The escaped form of string content.
pub open spec fn esc(s: Seq<char>) -> Seq<char>
    decreases s.len(),
{
    if s.len() == 0 {
        Seq::empty()
    } else {
        esc1(s[0]) + esc(s.skip(1))
    }
}

/// A JSON string literal.
pub open spec fn jstr(s: Seq<char>) -> Seq<char> {
    seq!['"'] + esc(s) + seq!['"']
}

/// An optional string field: a literal or `null`.
pub open spec fn jopt(o: Option<Seq<char>>) -> Seq<char> {
    match o {
        Some(s) => jstr(s),
        None => seq!['n', 'u', 'l', 'l'],
    }
}

/// One account entry of the index.
pub open spec fn account_json(a: AccountInfoV) -> Seq<char> {
    "{\"username\":"@ + jstr(a.username) + ",\"uuid\":"@ + jstr(a.uuid) + ",\"created_at\":"@
        + dec_rep(a.created_at) + ",\"last_used\":"@ + dec_rep(a.last_used) + ",\"display_name\":"@
        + jopt(a.display_name) + ",\"avatar_url\":"@ + jopt(a.avatar_url) + "}"@
}

/// The entry list from position `k` on: each entry after the first led by
/// a comma, the list closed by `]`.
pub open spec fn entries_rest(es: Seq<AccountInfoV>, k: int) -> Seq<char>
    decreases es.len() - k,
{
    if k < 0 || k >= es.len() {
        seq![']']
    } else {
        (if k == 0 {
            Seq::<char>::empty()
        } else {
            seq![',']
        }) + (account_json(es[k]) + entries_rest(es, k + 1))
    }
}

/// The whole account index record.
pub open spec fn index_json(m: IndexV) -> Seq<char> {
    "{\"accounts\":["@ + entries_rest(m.accounts, 0) + ",\"active_username\":"@ + jopt(
        m.active_username,
    ) + "}"@
}

/// The credential record.
pub open spec fn creds_json(c: CredentialsV) -> Seq<char> {
    "{\"username\":"@ + jstr(c.username) + ",\"uuid\":"@ + jstr(c.uuid) + ",\"token\":"@ + jopt(
        c.token,
    ) + ",\"session_data\":"@ + jopt(c.session_data) + ",\"created_at\":"@ + dec_rep(c.created_at)
        + ",\"last_used\":"@ + dec_rep(c.last_used) + "}"@
}

/// Escaping distributes over concatenation.
pub proof fn lemma_esc_concat(a: Seq<char>, b: Seq<char>)
    ensures
        esc(a + b) == esc(a) + esc(b),
    decreases a.len(),
{
    if a.len() == 0 {
        assert(a + b =~= b);
        assert(esc(a) + esc(b) =~= esc(b));
    } else {
        assert((a + b).skip(1) =~= a.skip(1) + b);
        lemma_esc_concat(a.skip(1), b);
        assert(esc(a + b) =~= esc1(a[0]) + (esc(a.skip(1)) + esc(b)));
        assert(esc(a) + esc(b) =~= esc1(a[0]) + (esc(a.skip(1)) + esc(b)));
    }
}

/// Escaping one more character appends its escaped form.
pub proof fn lemma_esc_snoc(s: Seq<char>, i: int)
    requires
        0 <= i < s.len(),
    ensures
        esc(s.take(i + 1)) == esc(s.take(i)) + esc1(s[i]),
{
    assert(s.take(i + 1) =~= s.take(i) + seq![s[i]]);
    lemma_esc_concat(s.take(i), seq![s[i]]);
    assert(seq![s[i]].skip(1) =~= Seq::<char>::empty());
    assert(esc(seq![s[i]]) == esc1(s[i]) + esc(Seq::<char>::empty()));
    assert(esc1(s[i]) + Seq::<char>::empty() =~= esc1(s[i]));
}

/// The escaped text is at least as long as the content.
pub proof fn lemma_esc_len(s: Seq<char>)
    ensures
        s.len() <= esc(s).len() <= 2 * s.len(),
    decreases s.len(),
{
    if s.len() > 0 {
        lemma_esc_len(s.skip(1));
    }
}

/// Appends a JSON string literal for the given content.
fn push_json_string(out: &mut String, field: &str)
    ensures
        final(out)@ == old(out)@ + jstr(field@),
{
    proof {
        reveal_strlit("\"");
        reveal_strlit("\\\"");
        reveal_strlit("\\\\");
    }
    let n = field.unicode_len();
    out.append("\"");
    proof {
        assert(out@ =~= old(out)@ + seq!['"']);
        assert(field@.take(0) =~= Seq::<char>::empty());
    }
    let mut i: usize = 0;
    while i < n
        invariant
            n == field@.len(),
            i <= n,
            out@ == old(out)@ + seq!['"'] + esc(field@.take(i as int)),
        decreases n - i,
    {
        proof {
            reveal_strlit("\"");
            reveal_strlit("\\\"");
            reveal_strlit("\\\\");
        }
        let c = field.get_char(i);
        if c == '"' {
            out.append("\\\"");
            proof {
                assert(out@ =~= old(out)@ + seq!['"'] + esc(field@.take(i as int)) + seq![
                    '\\',
                    '"',
                ]);
            }
        } else if c == '\\' {
            out.append("\\\\");
            proof {
                assert(out@ =~= old(out)@ + seq!['"'] + esc(field@.take(i as int)) + seq![
                    '\\',
                    '\\',
                ]);
            }
        } else {
            out.append(field.substring_char(i, i + 1));
            proof {
                assert(field@.subrange(i as int, i + 1) =~= seq![field@[i as int]]);
                assert(out@ =~= old(out)@ + seq!['"'] + esc(field@.take(i as int)) + seq![c]);
            }
        }
        proof {
            lemma_esc_snoc(field@, i as int);
            assert(out@ =~= old(out)@ + seq!['"'] + esc(field@.take(i + 1)));
        }
        i += 1;
    }
    out.append("\"");
    proof {
        assert(field@.take(n as int) =~= field@);
        assert(out@ =~= old(out)@ + jstr(field@));
    }
}

/// Appends an optional string field.
fn push_json_opt(out: &mut String, field: &Option<String>)
    ensures
        final(out)@ == old(out)@ + jopt(opt_text(*field)),
{
    match field {
        Some(s) => {
            push_json_string(out, s.as_str());
        },
        None => {
            proof {
                reveal_strlit("null");
            }
            out.append("null");
            proof {
                assert(out@ =~= old(out)@ + jopt(None::<Seq<char>>));
            }
        },
    }
}

/// Appends one account entry.
fn push_account(out: &mut String, a: &AccountInfo)
    ensures
        final(out)@ == old(out)@ + account_json(a@),
{
    out.append("{\"username\":");
    push_json_string(out, a.username.as_str());
    out.append(",\"uuid\":");
    push_json_string(out, a.uuid.as_str());
    out.append(",\"created_at\":");
    push_dec_i64(out, a.created_at);
    out.append(",\"last_used\":");
    push_dec_i64(out, a.last_used);
    out.append(",\"display_name\":");
    push_json_opt(out, &a.display_name);
    out.append(",\"avatar_url\":");
    push_json_opt(out, &a.avatar_url);
    out.append("}");
    proof {
        assert(out@ =~= old(out)@ + account_json(a@));
    }
}

/// Writes the account index in its canonical text form.
pub fn encode_index(l: &AccountsList) -> (r: String)
    ensures
        r@ == index_json(l@),
{
    let mut out = String::new();
    out.append("{\"accounts\":[");
    let ghost accs = accounts_view(l.accounts@);
    let n = l.accounts.len();
    proof {
        assert(out@ =~= Seq::<char>::empty() + "{\"accounts\":["@);
    }
    let mut k: usize = 0;
    while k < n
        invariant
            n == l.accounts@.len(),
            accs == accounts_view(l.accounts@),
            accs.len() == n,
            k <= n,
            out@ + entries_rest(accs, k as int) == "{\"accounts\":["@ + entries_rest(accs, 0),
        decreases n - k,
    {
        if k > 0 {
            out.append(",");
            proof {
                reveal_strlit(",");
            }
        }
        push_account(&mut out, &l.accounts[k]);
        proof {
            assert(accs[k as int] == l.accounts@[k as int]@);
            assert(out@ + entries_rest(accs, k + 1) =~= "{\"accounts\":["@ + entries_rest(
                accs,
                0,
            ));
        }
        k += 1;
    }
    out.append("]");
    proof {
        reveal_strlit("]");
        assert(entries_rest(accs, n as int) =~= seq![']']);
        assert(out@ =~= "{\"accounts\":["@ + entries_rest(accs, 0));
    }
    out.append(",\"active_username\":");
    push_json_opt(&mut out, &l.active_username);
    out.append("}");
    proof {
        assert(out@ =~= index_json(l@));
    }
    out
}

/// A text occurs at `i` exactly when its two halves occur in sequence.
pub proof fn lemma_text_at_concat(s: Seq<char>, i: int, t1: Seq<char>, t2: Seq<char>)
    ensures
        text_at(s, i, t1 + t2) <==> (text_at(s, i, t1) && text_at(s, i + t1.len(), t2)),
{
    if text_at(s, i, t1 + t2) {
        assert(s.subrange(i, i + t1.len()) =~= (t1 + t2).subrange(0, t1.len() as int));
        assert((t1 + t2).subrange(0, t1.len() as int) =~= t1);
        assert(s.subrange(i + t1.len(), i + t1.len() + t2.len()) =~= (t1 + t2).subrange(
            t1.len() as int,
            (t1 + t2).len() as int,
        ));
        assert((t1 + t2).subrange(t1.len() as int, (t1 + t2).len() as int) =~= t2);
    }
    if text_at(s, i, t1) && text_at(s, i + t1.len(), t2) {
        assert(s.subrange(i, i + (t1 + t2).len()) =~= t1 + t2);
    }
}

/// Splitting the escaped text at one content position.
proof fn lemma_esc_split(v: Seq<char>, k: int)
    requires
        0 <= k < v.len(),
    ensures
        esc(v) == esc(v.take(k)) + esc1(v[k]) + esc(v.skip(k + 1)),
        esc(v).len() >= esc(v.take(k)).len() + esc1(v[k]).len(),
{
    let unit = seq![v[k]] + v.skip(k + 1);
    assert(v =~= v.take(k) + unit);
    lemma_esc_concat(v.take(k), unit);
    assert(unit[0] == v[k]);
    assert(unit.skip(1) =~= v.skip(k + 1));
    assert(esc(unit) == esc1(v[k]) + esc(v.skip(k + 1)));
    assert(esc(v) =~= esc(v.take(k)) + esc1(v[k]) + esc(v.skip(k + 1)));
}

/// The characters of a string literal token, read off at a position: the
/// opening quote, each escape unit, and the closing quote.
proof fn lemma_jstr_at(s: Seq<char>, i: int, v: Seq<char>)
    requires
        text_at(s, i, jstr(v)),
    ensures
        i + 2 <= i + jstr(v).len() <= s.len(),
        jstr(v).len() == esc(v).len() + 2,
        s[i] == '"',
        s[i + 1 + esc(v).len()] == '"',
        forall|t: int| 0 <= t < esc(v).len() ==> s[i + 1 + t] == esc(v)[t],
{
    lemma_esc_len(v);
    assert(jstr(v)[0] == '"');
    assert(jstr(v)[1 + esc(v).len() as int] == '"');
    assert forall|t: int| 0 <= t < jstr(v).len() implies s[i + t] == jstr(v)[t] by {
        assert(s.subrange(i, i + jstr(v).len())[t] == s[i + t]);
    }
    assert forall|t: int| 0 <= t < esc(v).len() implies s[i + 1 + t] == esc(v)[t] by {
        assert(jstr(v)[1 + t] == esc(v)[t]);
        assert(s[i + 1 + t] == jstr(v)[1 + t]);
    }
}

/// Consumes an exact literal at a position.
fn eat_lit(s: &str, n: usize, i: usize, lit: &str, litn: usize) -> (r: Option<usize>)
    requires
        n == s@.len(),
        litn == lit@.len(),
        i <= n,
    ensures
        match r {
            Some(j) => text_at(s@, i as int, lit@) && j == i + litn && i <= j <= n,
            None => !text_at(s@, i as int, lit@),
        },
{
    if litn > n - i {
        return None;
    }
    let mut k: usize = 0;
    while k < litn
        invariant
            n == s@.len(),
            litn == lit@.len(),
            i + litn <= n,
            k <= litn,
            forall|t: int| 0 <= t < k ==> s@[i + t] == lit@[t],
        decreases litn - k,
    {
        if s.get_char(i + k) != lit.get_char(k) {
            proof {
                assert(!text_at(s@, i as int, lit@)) by {
                    if text_at(s@, i as int, lit@) {
                        assert(s@.subrange(i as int, i + litn)[k as int] == s@[i + k]);
                    }
                }
            }
            return None;
        }
        k += 1;
    }
    proof {
        assert(s@.subrange(i as int, i + litn) =~= lit@);
    }
    Some(i + litn)
}

/// Reads a string literal token.  Whenever some content's literal stands at
/// `i`, this returns exactly that content and stops right after its closing
/// quote.
fn parse_string(s: &str, n: usize, i: usize) -> (r: Option<(String, usize)>)
    requires
        n == s@.len(),
        i <= n,
    ensures
        r matches Some(p) ==> i < p.1 <= n,
        forall|v: Seq<char>|
            text_at(s@, i as int, #[trigger] jstr(v)) ==> (r matches Some(p) && p.0@ == v && p.1
                == i + jstr(v).len()),
{
    if i >= n {
        proof {
            assert forall|v: Seq<char>| !text_at(s@, i as int, jstr(v)) by {
                if text_at(s@, i as int, jstr(v)) {
                    lemma_jstr_at(s@, i as int, v);
                }
            }
        }
        return None;
    }
    if s.get_char(i) != '"' {
        proof {
            assert forall|v: Seq<char>| !text_at(s@, i as int, jstr(v)) by {
                if text_at(s@, i as int, jstr(v)) {
                    lemma_jstr_at(s@, i as int, v);
                }
            }
        }
        return None;
    }
    let mut out = String::new();
    let mut j: usize = i + 1;
    while j < n
        invariant
            n == s@.len(),
            i + 1 <= j <= n,
            forall|v: Seq<char>|
                text_at(s@, i as int, #[trigger] jstr(v)) ==> out@.len() <= v.len() && out@
                    == v.take(out@.len() as int) && j == i + 1 + esc(out@).len(),
        decreases n - j,
    {
        let ghost k = out@.len() as int;
        let c = s.get_char(j);
        if c == '"' {
            proof {
                assert forall|v: Seq<char>|
                    text_at(s@, i as int, #[trigger] jstr(v)) implies out@ == v && j + 1 == i
                    + jstr(v).len() by {
                    lemma_jstr_at(s@, i as int, v);
                    if k < v.len() {
                        lemma_esc_split(v, k);
                        assert(esc(out@) == esc(v.take(k)));
                        assert(esc(v)[esc(out@).len() as int] == esc1(v[k])[0]);
                        assert(s@[j as int] == esc1(v[k])[0]);
                        assert(esc1(v[k])[0] != '"');
                        assert(false);
                    }
                    assert(out@ =~= v);
                }
            }
            return Some((out, j + 1));
        } else if c == '\\' {
            if j + 1 >= n {
                proof {
                    assert forall|v: Seq<char>| !text_at(s@, i as int, jstr(v)) by {
                        if text_at(s@, i as int, jstr(v)) {
                            lemma_jstr_at(s@, i as int, v);
                            if k < v.len() {
                                lemma_esc_split(v, k);
                                assert(esc(v)[esc(out@).len() as int] == esc1(v[k])[0]);
                                assert(s@[j as int] == esc1(v[k])[0]);
                                assert(v[k] == '"' || v[k] == '\\');
                                assert(j + 1 < i + 1 + esc(v).len() + 1);
                            } else {
                                assert(out@ =~= v);
                                assert(s@[j as int] == '"');
                            }
                        }
                    }
                }
                return None;
            }
            let ghost outv = out@;
            out.append(s.substring_char(j + 1, j + 2));
            proof {
                assert(s@.subrange(j + 1, j + 2) =~= seq![s@[j + 1]]);
                assert(out@ =~= outv + seq![s@[j + 1]]);
                assert forall|v: Seq<char>|
                    text_at(s@, i as int, #[trigger] jstr(v)) implies out@.len() <= v.len() && out@
                    == v.take(out@.len() as int) && j + 2 == i + 1 + esc(out@).len() by {
                    lemma_jstr_at(s@, i as int, v);
                    if k == v.len() {
                        assert(outv =~= v);
                        assert(s@[j as int] == '"');
                        assert(false);
                    }
                    lemma_esc_split(v, k);
                    assert(esc(outv) == esc(v.take(k)));
                    assert(esc(v)[esc(outv).len() as int] == esc1(v[k])[0]);
                    assert(s@[j as int] == esc1(v[k])[0]);
                    assert(v[k] == '"' || v[k] == '\\');
                    assert(esc(v)[esc(outv).len() + 1 as int] == esc1(v[k])[1]);
                    assert(s@[j + 1] == esc1(v[k])[1]);
                    assert(esc1(v[k])[1] == v[k]);
                    assert(out@ =~= v.take(k + 1));
                    lemma_esc_snoc(v, k);
                    assert(esc(v.take(k + 1)).len() == esc(v.take(k)).len() + 2);
                }
            }
            j += 2;
        } else {
            let ghost outv = out@;
            out.append(s.substring_char(j, j + 1));
            proof {
                assert(s@.subrange(j as int, j + 1) =~= seq![s@[j as int]]);
                assert(out@ =~= outv + seq![s@[j as int]]);
                assert forall|v: Seq<char>|
                    text_at(s@, i as int, #[trigger] jstr(v)) implies out@.len() <= v.len() && out@
                    == v.take(out@.len() as int) && j + 1 == i + 1 + esc(out@).len() by {
                    lemma_jstr_at(s@, i as int, v);
                    if k == v.len() {
                        assert(outv =~= v);
                        assert(s@[j as int] == '"');
                        assert(false);
                    }
                    lemma_esc_split(v, k);
                    assert(esc(outv) == esc(v.take(k)));
                    assert(esc(v)[esc(outv).len() as int] == esc1(v[k])[0]);
                    assert(s@[j as int] == esc1(v[k])[0]);
                    assert(v[k] != '"' && v[k] != '\\') by {
                        if v[k] == '"' || v[k] == '\\' {
                            assert(esc1(v[k])[0] == '\\');
                        }
                    }
                    assert(esc1(v[k])[0] == v[k]);
                    assert(out@ =~= v.take(k + 1));
                    lemma_esc_snoc(v, k);
                    assert(esc(v.take(k + 1)).len() == esc(v.take(k)).len() + 1);
                }
            }
            j += 1;
        }
    }
    proof {
        assert forall|v: Seq<char>| !text_at(s@, i as int, jstr(v)) by {
            if text_at(s@, i as int, jstr(v)) {
                lemma_jstr_at(s@, i as int, v);
                let k = out@.len() as int;
                if k < v.len() {
                    lemma_esc_split(v, k);
                    assert(j == i + 1 + esc(v.take(k)).len());
                    assert(j < i + 1 + esc(v).len());
                } else {
                    assert(out@ =~= v);
                    assert(j == i + 1 + esc(v).len());
                }
            }
        }
    }
    None
}

/// What follows the opening key of an account entry, from each field on.
spec fn acc_v_username(a: AccountInfoV) -> Seq<char> {
    jstr(a.username) + acc_k_uuid(a)
}

spec fn acc_k_uuid(a: AccountInfoV) -> Seq<char> {
    ",\"uuid\":"@ + acc_v_uuid(a)
}

spec fn acc_v_uuid(a: AccountInfoV) -> Seq<char> {
    jstr(a.uuid) + acc_k_created(a)
}

spec fn acc_k_created(a: AccountInfoV) -> Seq<char> {
    ",\"created_at\":"@ + acc_v_created(a)
}

spec fn acc_v_created(a: AccountInfoV) -> Seq<char> {
    dec_rep(a.created_at) + acc_k_last(a)
}

spec fn acc_k_last(a: AccountInfoV) -> Seq<char> {
    ",\"last_used\":"@ + acc_v_last(a)
}

spec fn acc_v_last(a: AccountInfoV) -> Seq<char> {
    dec_rep(a.last_used) + acc_k_display(a)
}

spec fn acc_k_display(a: AccountInfoV) -> Seq<char> {
    ",\"display_name\":"@ + acc_v_display(a)
}

spec fn acc_v_display(a: AccountInfoV) -> Seq<char> {
    jopt(a.display_name) + acc_k_avatar(a)
}

spec fn acc_k_avatar(a: AccountInfoV) -> Seq<char> {
    ",\"avatar_url\":"@ + acc_v_avatar(a)
}

spec fn acc_v_avatar(a: AccountInfoV) -> Seq<char> {
    jopt(a.avatar_url) + "}"@
}

/// An account entry's text is its opening key followed by the field chain.
#[verifier::rlimit(100)]
proof fn lemma_account_split(a: AccountInfoV)
    ensures
        account_json(a) == "{\"username\":"@ + acc_v_username(a),
{
    assert(account_json(a) =~= "{\"username\":"@ + acc_v_username(a));
}

/// An account entry whose timestamps a 64-bit integer can carry, at `i`.
spec fn acc_at(s: Seq<char>, i: int, a: AccountInfoV) -> bool {
    &&& i64::MIN <= a.created_at <= i64::MAX
    &&& i64::MIN <= a.last_used <= i64::MAX
    &&& text_at(s, i, account_json(a))
}

/// Reads `null` or a string literal.
fn parse_opt_string(s: &str, n: usize, i: usize) -> (r: Option<(Option<String>, usize)>)
    requires
        n == s@.len(),
        i <= n,
    ensures
        r matches Some(p) ==> i < p.1 <= n,
        forall|o: Option<Seq<char>>|
            text_at(s@, i as int, #[trigger] jopt(o)) ==> (r matches Some(p) && opt_text(p.0) == o
                && p.1 == i + jopt(o).len()),
{
    proof {
        reveal_strlit("null");
    }
    if i >= n {
        proof {
            assert forall|o: Option<Seq<char>>| !text_at(s@, i as int, jopt(o)) by {
                if text_at(s@, i as int, jopt(o)) {
                    assert(jopt(o).len() >= 2);
                }
            }
        }
        return None;
    }
    let c = s.get_char(i);
    proof {
        assert forall|o: Option<Seq<char>>|
            text_at(s@, i as int, jopt(o)) implies s@[i as int] == jopt(o)[0] by {
            assert(s@.subrange(i as int, i + jopt(o).len())[0] == s@[i as int]);
        }
    }
    if c == 'n' {
        match eat_lit(s, n, i, "null", 4) {
            Some(j) => {
                proof {
                    assert forall|o: Option<Seq<char>>|
                        text_at(s@, i as int, jopt(o)) implies opt_text(None::<String>) == o && j
                        == i + jopt(o).len() by {
                        match o {
                            Some(v) => {
                                assert(jopt(o)[0] == '"');
                                assert(false);
                            },
                            None => {
                                assert(jopt(o) =~= "null"@);
                            },
                        }
                    }
                }
                Some((None, j))
            },
            None => {
                proof {
                    assert forall|o: Option<Seq<char>>| !text_at(s@, i as int, jopt(o)) by {
                        if text_at(s@, i as int, jopt(o)) {
                            match o {
                                Some(v) => {
                                    assert(jopt(o)[0] == '"');
                                },
                                None => {
                                    assert(jopt(o) =~= "null"@);
                                },
                            }
                        }
                    }
                }
                None
            },
        }
    } else {
        match parse_string(s, n, i) {
            Some((v, j)) => {
                proof {
                    assert forall|o: Option<Seq<char>>|
                        text_at(s@, i as int, jopt(o)) implies opt_text(Some(v)) == o && j == i
                        + jopt(o).len() by {
                        match o {
                            Some(w) => {
                                assert(jopt(o) == jstr(w));
                            },
                            None => {
                                assert(jopt(o) =~= "null"@);
                                assert(jopt(o)[0] == 'n');
                                assert(false);
                            },
                        }
                    }
                }
                Some((Some(v), j))
            },
            None => {
                proof {
                    assert forall|o: Option<Seq<char>>| !text_at(s@, i as int, jopt(o)) by {
                        if text_at(s@, i as int, jopt(o)) {
                            match o {
                                Some(w) => {
                                    assert(jopt(o) == jstr(w));
                                },
                                None => {
                                    assert(jopt(o) =~= "null"@);
                                    assert(jopt(o)[0] == 'n');
                                },
                            }
                        }
                    }
                }
                None
            },
        }
    }
}

/// Reads one account entry.  Whenever some entry's text stands at `i`,
/// this returns exactly that entry and stops right after it.
#[verifier::rlimit(30)]
fn parse_account(s: &str, n: usize, i: usize) -> (r: Option<(AccountInfo, usize)>)
    requires
        n == s@.len(),
        i <= n,
    ensures
        r matches Some(p) ==> i < p.1 <= n,
        forall|a: AccountInfoV|
            acc_at(s@, i as int, a) ==> (r matches Some(p) && p.0@ == a && p.1 == i + account_json(
                a,
            ).len()),
{
    proof {
        reveal_strlit("{\"username\":");
        reveal_strlit(",\"uuid\":");
        reveal_strlit(",\"created_at\":");
        reveal_strlit(",\"last_used\":");
        reveal_strlit(",\"display_name\":");
        reveal_strlit(",\"avatar_url\":");
        reveal_strlit("}");
        assert(',' as int == 44 && '0' as int == 48 && '9' as int == 57);
        assert(!is_dec_digit(','));
    }
    let j0 = match eat_lit(s, n, i, "{\"username\":", 12) {
        Some(j) => j,
        None => {
            proof {
                assert forall|a: AccountInfoV| !acc_at(s@, i as int, a) by {
                    if acc_at(s@, i as int, a) {
                        lemma_account_split(a);
                        lemma_text_at_concat(s@, i as int, "{\"username\":"@, acc_v_username(a));
                    }
                }
            }
            return None;
        },
    };
    proof {
        assert forall|a: AccountInfoV|
            acc_at(s@, i as int, a) implies text_at(s@, j0 as int, acc_v_username(a)) by {
            lemma_account_split(a);
            lemma_text_at_concat(s@, i as int, "{\"username\":"@, acc_v_username(a));
        }
    }
    let (username, j1) = match parse_string(s, n, j0) {
        Some(p) => p,
        None => {
            proof {
                assert forall|a: AccountInfoV| !acc_at(s@, i as int, a) by {
                    if acc_at(s@, i as int, a) {
                        lemma_text_at_concat(s@, j0 as int, jstr(a.username), acc_k_uuid(a));
                    }
                }
            }
            return None;
        },
    };
    proof {
        assert forall|a: AccountInfoV|
            acc_at(s@, i as int, a) implies username@ == a.username && j1 == j0 + jstr(
            a.username,
        ).len() && text_at(s@, j1 as int, acc_k_uuid(a)) by {
            lemma_text_at_concat(s@, j0 as int, jstr(a.username), acc_k_uuid(a));
        }
    }
    let j2 = match eat_lit(s, n, j1, ",\"uuid\":", 8) {
        Some(j) => j,
        None => {
            proof {
                assert forall|a: AccountInfoV| !acc_at(s@, i as int, a) by {
                    if acc_at(s@, i as int, a) {
                        lemma_text_at_concat(s@, j1 as int, ",\"uuid\":"@, acc_v_uuid(a));
                    }
                }
            }
            return None;
        },
    };
    proof {
        assert forall|a: AccountInfoV|
            acc_at(s@, i as int, a) implies text_at(s@, j2 as int, acc_v_uuid(a)) by {
            lemma_text_at_concat(s@, j1 as int, ",\"uuid\":"@, acc_v_uuid(a));
        }
    }
    let (uuid, j3) = match parse_string(s, n, j2) {
        Some(p) => p,
        None => {
            proof {
                assert forall|a: AccountInfoV| !acc_at(s@, i as int, a) by {
                    if acc_at(s@, i as int, a) {
                        lemma_text_at_concat(s@, j2 as int, jstr(a.uuid), acc_k_created(a));
                    }
                }
            }
            return None;
        },
    };
    proof {
        assert forall|a: AccountInfoV|
            acc_at(s@, i as int, a) implies uuid@ == a.uuid && j3 == j2 + jstr(a.uuid).len()
            && text_at(s@, j3 as int, acc_k_created(a)) by {
            lemma_text_at_concat(s@, j2 as int, jstr(a.uuid), acc_k_created(a));
        }
    }
    let j4 = match eat_lit(s, n, j3, ",\"created_at\":", 14) {
        Some(j) => j,
        None => {
            proof {
                assert forall|a: AccountInfoV| !acc_at(s@, i as int, a) by {
                    if acc_at(s@, i as int, a) {
                        lemma_text_at_concat(s@, j3 as int, ",\"created_at\":"@, acc_v_created(a));
                    }
                }
            }
            return None;
        },
    };
    proof {
        assert forall|a: AccountInfoV|
            acc_at(s@, i as int, a) implies text_at(s@, j4 as int, dec_rep(a.created_at))
            && text_at(s@, j4 + dec_rep(a.created_at).len(), acc_k_last(a)) && !is_dec_digit(
            s@[j4 + dec_rep(a.created_at).len()],
        ) by {
            lemma_text_at_concat(s@, j3 as int, ",\"created_at\":"@, acc_v_created(a));
            lemma_text_at_concat(s@, j4 as int, dec_rep(a.created_at), acc_k_last(a));
            let q = j4 + dec_rep(a.created_at).len();
            assert(s@.subrange(q as int, q + acc_k_last(a).len())[0] == s@[q as int]);
            assert(acc_k_last(a)[0] == ',');
        }
    }
    let (created_at, j5) = match parse_i64(s, n, j4) {
        Some(p) => p,
        None => {
            proof {
                assert forall|a: AccountInfoV| !acc_at(s@, i as int, a) by {
                    if acc_at(s@, i as int, a) {
                        // The number token is in place, so the reader
                        // cannot have failed.
                    }
                }
            }
            return None;
        },
    };
    proof {
        assert forall|a: AccountInfoV|
            acc_at(s@, i as int, a) implies created_at == a.created_at && j5 == j4 + dec_rep(
            a.created_at,
        ).len() && text_at(s@, j5 as int, acc_k_last(a)) by {
        }
    }
    let j6 = match eat_lit(s, n, j5, ",\"last_used\":", 13) {
        Some(j) => j,
        None => {
            proof {
                assert forall|a: AccountInfoV| !acc_at(s@, i as int, a) by {
                    if acc_at(s@, i as int, a) {
                        lemma_text_at_concat(s@, j5 as int, ",\"last_used\":"@, acc_v_last(a));
                    }
                }
            }
            return None;
        },
    };
    proof {
        assert forall|a: AccountInfoV|
            acc_at(s@, i as int, a) implies text_at(s@, j6 as int, dec_rep(a.last_used))
            && text_at(s@, j6 + dec_rep(a.last_used).len(), acc_k_display(a)) && !is_dec_digit(
            s@[j6 + dec_rep(a.last_used).len()],
        ) by {
            lemma_text_at_concat(s@, j5 as int, ",\"last_used\":"@, acc_v_last(a));
            lemma_text_at_concat(s@, j6 as int, dec_rep(a.last_used), acc_k_display(a));
            let q = j6 + dec_rep(a.last_used).len();
            assert(s@.subrange(q as int, q + acc_k_display(a).len())[0] == s@[q as int]);
            assert(acc_k_display(a)[0] == ',');
        }
    }
    let (last_used, j7) = match parse_i64(s, n, j6) {
        Some(p) => p,
        None => {
            proof {
                assert forall|a: AccountInfoV| !acc_at(s@, i as int, a) by {
                    if acc_at(s@, i as int, a) {
                        // The number token is in place, so the reader
                        // cannot have failed.
                    }
                }
            }
            return None;
        },
    };
    proof {
        assert forall|a: AccountInfoV|
            acc_at(s@, i as int, a) implies last_used == a.last_used && j7 == j6 + dec_rep(
            a.last_used,
        ).len() && text_at(s@, j7 as int, acc_k_display(a)) by {
        }
    }
    let j8 = match eat_lit(s, n, j7, ",\"display_name\":", 16) {
        Some(j) => j,
        None => {
            proof {
                assert forall|a: AccountInfoV| !acc_at(s@, i as int, a) by {
                    if acc_at(s@, i as int, a) {
                        lemma_text_at_concat(s@, j7 as int, ",\"display_name\":"@, acc_v_display(a));
                    }
                }
            }
            return None;
        },
    };
    proof {
        assert forall|a: AccountInfoV|
            acc_at(s@, i as int, a) implies text_at(s@, j8 as int, acc_v_display(a)) by {
            lemma_text_at_concat(s@, j7 as int, ",\"display_name\":"@, acc_v_display(a));
        }
    }
    let (display_name, j9) = match parse_opt_string(s, n, j8) {
        Some(p) => p,
        None => {
            proof {
                assert forall|a: AccountInfoV| !acc_at(s@, i as int, a) by {
                    if acc_at(s@, i as int, a) {
                        lemma_text_at_concat(s@, j8 as int, jopt(a.display_name), acc_k_avatar(a));
                    }
                }
            }
            return None;
        },
    };
    proof {
        assert forall|a: AccountInfoV|
            acc_at(s@, i as int, a) implies opt_text(display_name) == a.display_name && j9 == j8
            + jopt(a.display_name).len() && text_at(s@, j9 as int, acc_k_avatar(a)) by {
            lemma_text_at_concat(s@, j8 as int, jopt(a.display_name), acc_k_avatar(a));
        }
    }
    let j10 = match eat_lit(s, n, j9, ",\"avatar_url\":", 14) {
        Some(j) => j,
        None => {
            proof {
                assert forall|a: AccountInfoV| !acc_at(s@, i as int, a) by {
                    if acc_at(s@, i as int, a) {
                        lemma_text_at_concat(s@, j9 as int, ",\"avatar_url\":"@, acc_v_avatar(a));
                    }
                }
            }
            return None;
        },
    };
    proof {
        assert forall|a: AccountInfoV|
            acc_at(s@, i as int, a) implies text_at(s@, j10 as int, acc_v_avatar(a)) by {
            lemma_text_at_concat(s@, j9 as int, ",\"avatar_url\":"@, acc_v_avatar(a));
        }
    }
    let (avatar_url, j11) = match parse_opt_string(s, n, j10) {
        Some(p) => p,
        None => {
            proof {
                assert forall|a: AccountInfoV| !acc_at(s@, i as int, a) by {
                    if acc_at(s@, i as int, a) {
                        lemma_text_at_concat(s@, j10 as int, jopt(a.avatar_url), "}"@);
                    }
                }
            }
            return None;
        },
    };
    proof {
        assert forall|a: AccountInfoV|
            acc_at(s@, i as int, a) implies opt_text(avatar_url) == a.avatar_url && j11 == j10
            + jopt(a.avatar_url).len() && text_at(s@, j11 as int, "}"@) by {
            lemma_text_at_concat(s@, j10 as int, jopt(a.avatar_url), "}"@);
        }
    }
    let j12 = match eat_lit(s, n, j11, "}", 1) {
        Some(j) => j,
        None => {
            proof {
                assert forall|a: AccountInfoV| !acc_at(s@, i as int, a) by {
                    if acc_at(s@, i as int, a) {
                    }
                }
            }
            return None;
        },
    };
    let info = AccountInfo {
        username,
        uuid,
        created_at,
        last_used,
        display_name,
        avatar_url,
    };
    proof {
        assert forall|a: AccountInfoV|
            acc_at(s@, i as int, a) implies info@ == a && j12 == i + account_json(a).len() by {
            lemma_account_split(a);
        }
    }
    Some((info, j12))
}

/// Writes the credential record in its canonical text form.
pub fn encode_credentials(c: &Credentials) -> (r: String)
    ensures
        r@ == creds_json(c@),
{
    let mut out = String::new();
    out.append("{\"username\":");
    proof {
        assert(out@ =~= Seq::<char>::empty() + "{\"username\":"@);
    }
    push_json_string(&mut out, c.username.as_str());
    out.append(",\"uuid\":");
    push_json_string(&mut out, c.uuid.as_str());
    out.append(",\"token\":");
    push_json_opt(&mut out, &c.token);
    out.append(",\"session_data\":");
    push_json_opt(&mut out, &c.session_data);
    out.append(",\"created_at\":");
    push_dec_i64(&mut out, c.created_at);
    out.append(",\"last_used\":");
    push_dec_i64(&mut out, c.last_used);
    out.append("}");
    proof {
        assert(out@ =~= creds_json(c@));
    }
    out
}

/// Equal texts with equal prefixes have equal remainders.
proof fn lemma_cancel_prefix(a: Seq<char>, x: Seq<char>, y: Seq<char>)
    requires
        a + x == a + y,
    ensures
        x == y,
{
    assert(x =~= (a + x).subrange(a.len() as int, (a + x).len() as int));
    assert(y =~= (a + y).subrange(a.len() as int, (a + y).len() as int));
}

/// Scanning to the closing quote is deterministic: two escaped contents
/// followed by a quote and a remainder spell the same text only when the
/// contents and the remainders agree.
proof fn lemma_esc_scan(u1: Seq<char>, u2: Seq<char>, r1: Seq<char>, r2: Seq<char>)
    requires
        esc(u1) + seq!['"'] + r1 == esc(u2) + seq!['"'] + r2,
    ensures
        u1 == u2,
        r1 == r2,
    decreases u1.len(),
{
    let s1 = esc(u1) + seq!['"'] + r1;
    let s2 = esc(u2) + seq!['"'] + r2;
    if u1.len() == 0 {
        assert(s1[0] == '"');
        if u2.len() > 0 {
            assert(s2[0] == esc1(u2[0])[0]);
            assert(esc1(u2[0])[0] != '"');
            assert(false);
        }
        assert(u1 =~= u2);
        assert(Seq::<char>::empty() + seq!['"'] + r1 =~= seq!['"'] + r1);
        assert(Seq::<char>::empty() + seq!['"'] + r2 =~= seq!['"'] + r2);
        assert(seq!['"'] + r1 == seq!['"'] + r2);
        lemma_cancel_prefix(seq!['"'], r1, r2);
    } else if u2.len() == 0 {
        assert(s2[0] == '"');
        assert(s1[0] == esc1(u1[0])[0]);
        assert(esc1(u1[0])[0] != '"');
        assert(false);
    } else {
        let c1 = u1[0];
        let c2 = u2[0];
        let t1 = esc(u1.skip(1)) + seq!['"'] + r1;
        let t2 = esc(u2.skip(1)) + seq!['"'] + r2;
        assert(s1 =~= esc1(c1) + t1);
        assert(s2 =~= esc1(c2) + t2);
        let sp1 = c1 == '"' || c1 == '\\';
        let sp2 = c2 == '"' || c2 == '\\';
        if sp1 != sp2 {
            // One side starts with the escape lead, the other with a
            // character that is not it.
            assert(s1[0] == esc1(c1)[0]);
            assert(s2[0] == esc1(c2)[0]);
            assert(false);
        }
        if sp1 {
            assert(s1[1] == c1 && s2[1] == c2);
            assert(c1 == c2);
            assert(esc1(c1) + t1 == esc1(c2) + t2);
            lemma_cancel_prefix(esc1(c1), t1, t2);
        } else {
            assert(s1[0] == c1 && s2[0] == c2);
            assert(c1 == c2);
            assert(esc1(c1) + t1 == esc1(c2) + t2);
            lemma_cancel_prefix(esc1(c1), t1, t2);
        }
        lemma_esc_scan(u1.skip(1), u2.skip(1), r1, r2);
        assert(u1.len() == u2.len());
        assert forall|i: int| 1 <= i < u1.len() implies u1[i] == u2[i] by {
            assert(u1.skip(1)[i - 1] == u2.skip(1)[i - 1]);
        }
        assert(u1 =~= u2);
    }
}

/// A string literal token determines its content and what follows it.
proof fn lemma_jstr_token(u1: Seq<char>, u2: Seq<char>, r1: Seq<char>, r2: Seq<char>)
    requires
        jstr(u1) + r1 == jstr(u2) + r2,
    ensures
        u1 == u2,
        r1 == r2,
{
    assert(jstr(u1) + r1 =~= seq!['"'] + (esc(u1) + seq!['"'] + r1));
    assert(jstr(u2) + r2 =~= seq!['"'] + (esc(u2) + seq!['"'] + r2));
    lemma_cancel_prefix(seq!['"'], esc(u1) + seq!['"'] + r1, esc(u2) + seq!['"'] + r2);
    lemma_esc_scan(u1, u2, r1, r2);
}

/// A decimal token followed by a non-digit determines its value and what
/// follows it.
proof fn lemma_dec_token(x1: int, x2: int, r1: Seq<char>, r2: Seq<char>)
    requires
        dec_rep(x1) + r1 == dec_rep(x2) + r2,
        r1.len() > 0 && !is_dec_digit(r1[0]),
        r2.len() > 0 && !is_dec_digit(r2[0]),
    ensures
        x1 == x2,
        r1 == r2,
{
    crate::text::lemma_dec_nat_digits(vstd::math::abs(x1) as nat);
    crate::text::lemma_dec_nat_digits(vstd::math::abs(x2) as nat);
    assert('-' as int == 45 && '0' as int == 48 && '9' as int == 57);
    assert(!is_dec_digit('-'));
    let s1 = dec_rep(x1) + r1;
    let s2 = dec_rep(x2) + r2;
    if (x1 < 0) != (x2 < 0) {
        assert(s1[0] == dec_rep(x1)[0]);
        assert(s2[0] == dec_rep(x2)[0]);
        if x1 < 0 {
            assert(s1[0] == '-');
            assert(is_dec_digit(dec_rep(x2)[0]));
        } else {
            assert(s2[0] == '-');
            assert(is_dec_digit(dec_rep(x1)[0]));
        }
        assert(false);
    }
    let m1 = vstd::math::abs(x1) as nat;
    let m2 = vstd::math::abs(x2) as nat;
    let d1 = dec_nat(m1);
    let d2 = dec_nat(m2);
    if x1 < 0 {
        assert(dec_rep(x1) + r1 =~= seq!['-'] + (d1 + r1));
        assert(dec_rep(x2) + r2 =~= seq!['-'] + (d2 + r2));
        lemma_cancel_prefix(seq!['-'], d1 + r1, d2 + r2);
    } else {
        assert(d1 + r1 == d2 + r2);
    }
    let t1 = d1 + r1;
    let t2 = d2 + r2;
    assert(t1 == t2);
    assert(d1.len() == d2.len()) by {
        if d1.len() < d2.len() {
            assert(t1[d1.len() as int] == r1[0]);
            assert(t2[d1.len() as int] == d2[d1.len() as int]);
            assert(is_dec_digit(d2[d1.len() as int]));
            assert(false);
        }
        if d2.len() < d1.len() {
            assert(t1[d2.len() as int] == d1[d2.len() as int]);
            assert(t2[d2.len() as int] == r2[0]);
            assert(is_dec_digit(d1[d2.len() as int]));
            assert(false);
        }
    }
    assert(d1 =~= t1.subrange(0, d1.len() as int));
    assert(d2 =~= t2.subrange(0, d2.len() as int));
    assert(d1 == d2);
    crate::text::lemma_dec_nat_val(m1);
    crate::text::lemma_dec_nat_val(m2);
    assert(m1 == m2);
    lemma_cancel_prefix(d1, r1, r2);
}

/// An optional-string token determines its value and what follows it.
proof fn lemma_jopt_token(
    o1: Option<Seq<char>>,
    o2: Option<Seq<char>>,
    r1: Seq<char>,
    r2: Seq<char>,
)
    requires
        jopt(o1) + r1 == jopt(o2) + r2,
    ensures
        o1 == o2,
        r1 == r2,
{
    match (o1, o2) {
        (None, None) => {
            lemma_cancel_prefix(seq!['n', 'u', 'l', 'l'], r1, r2);
        },
        (Some(v1), Some(v2)) => {
            lemma_jstr_token(v1, v2, r1, r2);
        },
        (None, Some(v2)) => {
            assert((jopt(o1) + r1)[0] == 'n');
            assert((jopt(o2) + r2)[0] == '"');
            assert(false);
        },
        (Some(v1), None) => {
            assert((jopt(o1) + r1)[0] == '"');
            assert((jopt(o2) + r2)[0] == 'n');
            assert(false);
        },
    }
}

/// An account entry token determines its entry and what follows it.
#[verifier::rlimit(100)]
proof fn lemma_account_token(a1: AccountInfoV, a2: AccountInfoV, r1: Seq<char>, r2: Seq<char>)
    requires
        account_json(a1) + r1 == account_json(a2) + r2,
    ensures
        a1 == a2,
        r1 == r2,
{
    reveal_strlit("{\"username\":");
    reveal_strlit(",\"uuid\":");
    reveal_strlit(",\"created_at\":");
    reveal_strlit(",\"last_used\":");
    reveal_strlit(",\"display_name\":");
    reveal_strlit(",\"avatar_url\":");
    reveal_strlit("}");
    assert(',' as int == 44 && '0' as int == 48 && '9' as int == 57);
    assert(!is_dec_digit(','));
    lemma_account_split(a1);
    lemma_account_split(a2);
    assert(account_json(a1) + r1 =~= "{\"username\":"@ + (acc_v_username(a1) + r1));
    assert(account_json(a2) + r2 =~= "{\"username\":"@ + (acc_v_username(a2) + r2));
    lemma_cancel_prefix(
        "{\"username\":"@,
        acc_v_username(a1) + r1,
        acc_v_username(a2) + r2,
    );
    assert(acc_v_username(a1) + r1 =~= jstr(a1.username) + (acc_k_uuid(a1) + r1));
    assert(acc_v_username(a2) + r2 =~= jstr(a2.username) + (acc_k_uuid(a2) + r2));
    lemma_jstr_token(a1.username, a2.username, acc_k_uuid(a1) + r1, acc_k_uuid(a2) + r2);
    assert(acc_k_uuid(a1) + r1 =~= ",\"uuid\":"@ + (acc_v_uuid(a1) + r1));
    assert(acc_k_uuid(a2) + r2 =~= ",\"uuid\":"@ + (acc_v_uuid(a2) + r2));
    lemma_cancel_prefix(",\"uuid\":"@, acc_v_uuid(a1) + r1, acc_v_uuid(a2) + r2);
    assert(acc_v_uuid(a1) + r1 =~= jstr(a1.uuid) + (acc_k_created(a1) + r1));
    assert(acc_v_uuid(a2) + r2 =~= jstr(a2.uuid) + (acc_k_created(a2) + r2));
    lemma_jstr_token(a1.uuid, a2.uuid, acc_k_created(a1) + r1, acc_k_created(a2) + r2);
    assert(acc_k_created(a1) + r1 =~= ",\"created_at\":"@ + (acc_v_created(a1) + r1));
    assert(acc_k_created(a2) + r2 =~= ",\"created_at\":"@ + (acc_v_created(a2) + r2));
    lemma_cancel_prefix(",\"created_at\":"@, acc_v_created(a1) + r1, acc_v_created(a2) + r2);
    assert(acc_v_created(a1) + r1 =~= dec_rep(a1.created_at) + (acc_k_last(a1) + r1));
    assert(acc_v_created(a2) + r2 =~= dec_rep(a2.created_at) + (acc_k_last(a2) + r2));
    assert((acc_k_last(a1) + r1)[0] == ',');
    assert((acc_k_last(a2) + r2)[0] == ',');
    lemma_dec_token(a1.created_at, a2.created_at, acc_k_last(a1) + r1, acc_k_last(a2) + r2);
    assert(acc_k_last(a1) + r1 =~= ",\"last_used\":"@ + (acc_v_last(a1) + r1));
    assert(acc_k_last(a2) + r2 =~= ",\"last_used\":"@ + (acc_v_last(a2) + r2));
    lemma_cancel_prefix(",\"last_used\":"@, acc_v_last(a1) + r1, acc_v_last(a2) + r2);
    assert(acc_v_last(a1) + r1 =~= dec_rep(a1.last_used) + (acc_k_display(a1) + r1));
    assert(acc_v_last(a2) + r2 =~= dec_rep(a2.last_used) + (acc_k_display(a2) + r2));
    assert((acc_k_display(a1) + r1)[0] == ',');
    assert((acc_k_display(a2) + r2)[0] == ',');
    lemma_dec_token(a1.last_used, a2.last_used, acc_k_display(a1) + r1, acc_k_display(a2) + r2);
    assert(acc_k_display(a1) + r1 =~= ",\"display_name\":"@ + (acc_v_display(a1) + r1));
    assert(acc_k_display(a2) + r2 =~= ",\"display_name\":"@ + (acc_v_display(a2) + r2));
    lemma_cancel_prefix(",\"display_name\":"@, acc_v_display(a1) + r1, acc_v_display(a2) + r2);
    assert(acc_v_display(a1) + r1 =~= jopt(a1.display_name) + (acc_k_avatar(a1) + r1));
    assert(acc_v_display(a2) + r2 =~= jopt(a2.display_name) + (acc_k_avatar(a2) + r2));
    lemma_jopt_token(
        a1.display_name,
        a2.display_name,
        acc_k_avatar(a1) + r1,
        acc_k_avatar(a2) + r2,
    );
    assert(acc_k_avatar(a1) + r1 =~= ",\"avatar_url\":"@ + (acc_v_avatar(a1) + r1));
    assert(acc_k_avatar(a2) + r2 =~= ",\"avatar_url\":"@ + (acc_v_avatar(a2) + r2));
    lemma_cancel_prefix(",\"avatar_url\":"@, acc_v_avatar(a1) + r1, acc_v_avatar(a2) + r2);
    assert(acc_v_avatar(a1) + r1 =~= jopt(a1.avatar_url) + ("}"@ + r1));
    assert(acc_v_avatar(a2) + r2 =~= jopt(a2.avatar_url) + ("}"@ + r2));
    lemma_jopt_token(a1.avatar_url, a2.avatar_url, "}"@ + r1, "}"@ + r2);
    lemma_cancel_prefix("}"@, r1, r2);
}

/// The entry list from `k` on determines its entries and what follows the
/// closing bracket, provided the remainder opens with a comma (as the
/// index tail always does) so it cannot be confused with a separator.
#[verifier::rlimit(100)]
proof fn lemma_entries_token(
    es1: Seq<AccountInfoV>,
    es2: Seq<AccountInfoV>,
    k: int,
    r1: Seq<char>,
    r2: Seq<char>,
)
    requires
        0 <= k <= es1.len(),
        k <= es2.len(),
        entries_rest(es1, k) + r1 == entries_rest(es2, k) + r2,
        r1.len() > 0 && r1[0] == ',',
        r2.len() > 0 && r2[0] == ',',
    ensures
        es1.skip(k) == es2.skip(k),
        r1 == r2,
    decreases es1.len() + es2.len() - k,
{
    reveal_strlit("{\"username\":");
    let t1 = entries_rest(es1, k) + r1;
    let t2 = entries_rest(es2, k) + r2;
    if k == es1.len() && k == es2.len() {
        assert(entries_rest(es1, k) =~= seq![']']);
        assert(entries_rest(es2, k) =~= seq![']']);
        lemma_cancel_prefix(seq![']'], r1, r2);
        assert(es1.skip(k) =~= es2.skip(k));
    } else if k == es1.len() {
        assert(t1[0] == ']');
        if k == 0 {
            lemma_account_split(es2[0]);
            assert(entries_rest(es2, 0) =~= account_json(es2[0]) + entries_rest(es2, 1));
            assert(t2[0] == account_json(es2[0])[0]);
            assert(account_json(es2[0])[0] == '{');
        } else {
            assert(t2[0] == ',');
        }
        assert(false);
    } else if k == es2.len() {
        assert(t2[0] == ']');
        if k == 0 {
            lemma_account_split(es1[0]);
            assert(entries_rest(es1, 0) =~= account_json(es1[0]) + entries_rest(es1, 1));
            assert(t1[0] == account_json(es1[0])[0]);
            assert(account_json(es1[0])[0] == '{');
        } else {
            assert(t1[0] == ',');
        }
        assert(false);
    } else {
        if k == 0 {
            assert(t1 =~= account_json(es1[0]) + (entries_rest(es1, 1) + r1));
            assert(t2 =~= account_json(es2[0]) + (entries_rest(es2, 1) + r2));
            lemma_account_token(es1[0], es2[0], entries_rest(es1, 1) + r1, entries_rest(
                es2,
                1,
            ) + r2);
        } else {
            assert(t1 =~= seq![','] + (account_json(es1[k]) + (entries_rest(es1, k + 1) + r1)));
            assert(t2 =~= seq![','] + (account_json(es2[k]) + (entries_rest(es2, k + 1) + r2)));
            lemma_cancel_prefix(
                seq![','],
                account_json(es1[k]) + (entries_rest(es1, k + 1) + r1),
                account_json(es2[k]) + (entries_rest(es2, k + 1) + r2),
            );
            lemma_account_token(es1[k], es2[k], entries_rest(es1, k + 1) + r1, entries_rest(
                es2,
                k + 1,
            ) + r2);
        }
        lemma_entries_token(es1, es2, k + 1, r1, r2);
        assert(es1.skip(k + 1).len() == es1.len() - (k + 1));
        assert(es2.skip(k + 1).len() == es2.len() - (k + 1));
        assert(es1.len() == es2.len());
        assert forall|i: int| k + 1 <= i < es1.len() implies es1[i] == es2[i] by {
            assert(es1.skip(k + 1)[i - k - 1] == es2.skip(k + 1)[i - k - 1]);
        }
        assert(es1.skip(k) =~= es2.skip(k));
    }
}

/// The canonical index text determines the index: no two indices share it.
pub proof fn lemma_index_json_injective(m1: IndexV, m2: IndexV)
    requires
        index_json(m1) == index_json(m2),
    ensures
        m1 == m2,
{
    reveal_strlit("{\"accounts\":[");
    reveal_strlit(",\"active_username\":");
    reveal_strlit("}");
    lemma_index_split(m1);
    lemma_index_split(m2);
    lemma_cancel_prefix(
        "{\"accounts\":["@,
        entries_rest(m1.accounts, 0) + idx_tail(m1),
        entries_rest(m2.accounts, 0) + idx_tail(m2),
    );
    assert(idx_tail(m1).len() > 0 && idx_tail(m1)[0] == ',');
    assert(idx_tail(m2).len() > 0 && idx_tail(m2)[0] == ',');
    lemma_entries_token(m1.accounts, m2.accounts, 0, idx_tail(m1), idx_tail(m2));
    assert(m1.accounts.skip(0) =~= m1.accounts);
    assert(m2.accounts.skip(0) =~= m2.accounts);
    lemma_cancel_prefix(
        ",\"active_username\":"@,
        jopt(m1.active_username) + "}"@,
        jopt(m2.active_username) + "}"@,
    );
    lemma_jopt_token(m1.active_username, m2.active_username, "}"@, "}"@);
}

/// The canonical credential text determines the record: no two records
/// share it.
#[verifier::rlimit(100)]
pub proof fn lemma_creds_json_injective(c1: CredentialsV, c2: CredentialsV)
    requires
        creds_json(c1) == creds_json(c2),
    ensures
        c1 == c2,
{
    reveal_strlit("{\"username\":");
    reveal_strlit(",\"uuid\":");
    reveal_strlit(",\"token\":");
    reveal_strlit(",\"session_data\":");
    reveal_strlit(",\"created_at\":");
    reveal_strlit(",\"last_used\":");
    reveal_strlit("}");
    assert(',' as int == 44 && '}' as int == 125 && '0' as int == 48 && '9' as int == 57);
    assert(!is_dec_digit(',') && !is_dec_digit('}'));
    lemma_creds_split(c1);
    lemma_creds_split(c2);
    assert(creds_json(c1) =~= "{\"username\":"@ + cred_v_username(c1));
    assert(creds_json(c2) =~= "{\"username\":"@ + cred_v_username(c2));
    lemma_cancel_prefix("{\"username\":"@, cred_v_username(c1), cred_v_username(c2));
    lemma_jstr_token(c1.username, c2.username, cred_k_uuid(c1), cred_k_uuid(c2));
    lemma_cancel_prefix(",\"uuid\":"@, cred_v_uuid(c1), cred_v_uuid(c2));
    lemma_jstr_token(c1.uuid, c2.uuid, cred_k_token(c1), cred_k_token(c2));
    lemma_cancel_prefix(",\"token\":"@, cred_v_token(c1), cred_v_token(c2));
    lemma_jopt_token(c1.token, c2.token, cred_k_session(c1), cred_k_session(c2));
    lemma_cancel_prefix(",\"session_data\":"@, cred_v_session(c1), cred_v_session(c2));
    lemma_jopt_token(c1.session_data, c2.session_data, cred_k_created(c1), cred_k_created(c2));
    lemma_cancel_prefix(",\"created_at\":"@, cred_v_created(c1), cred_v_created(c2));
    assert(cred_k_last(c1)[0] == ',');
    assert(cred_k_last(c2)[0] == ',');
    lemma_dec_token(c1.created_at, c2.created_at, cred_k_last(c1), cred_k_last(c2));
    lemma_cancel_prefix(",\"last_used\":"@, cred_v_last(c1), cred_v_last(c2));
    assert(("}"@).len() > 0 && ("}"@)[0] == '}');
    lemma_dec_token(c1.last_used, c2.last_used, "}"@, "}"@);
}

/// Decides the index invariant for a concrete list.
#[verifier::loop_isolation(false)]
fn check_wf(l: &AccountsList) -> (r: bool)
    ensures
        r == l@.wf(),
{
    let n = l.accounts.len();
    proof {
        assert(l@.accounts.len() == n);
        assert(forall|x: int|
            0 <= x < n ==> l@.accounts[x] == #[trigger] l.accounts@[x]@);
    }
    let mut i: usize = 0;
    while i < n
        invariant
            i <= n,
            forall|x: int, y: int|
                0 <= x < y < n && x < i ==> l@.accounts[x].username != l@.accounts[y].username,
        decreases n - i,
    {
        let mut j = i + 1;
        while j < n
            invariant
                i < j <= n,
                forall|y: int| i < y < j ==> l@.accounts[i as int].username != l@.accounts[y].username,
            decreases n - j,
        {
            if str_eq(l.accounts[i].username.as_str(), l.accounts[j].username.as_str()) {
                proof {
                    assert(l@.accounts[i as int].username == l@.accounts[j as int].username);
                    assert(!l@.wf());
                }
                return false;
            }
            j += 1;
        }
        i += 1;
    }
    match &l.active_username {
        None => {
            proof {
                assert(l@.active_username is None);
            }
            true
        },
        Some(u) => {
            let mut t: usize = 0;
            while t < n
                invariant
                    t <= n,
                    forall|y: int| 0 <= y < t ==> l@.accounts[y].username != u@,
                decreases n - t,
            {
                if str_eq(l.accounts[t].username.as_str(), u.as_str()) {
                    proof {
                        assert(l@.accounts[t as int].username == u@);
                        assert(has_user(l@, u@));
                    }
                    return true;
                }
                t += 1;
            }
            proof {
                assert(!has_user(l@, u@));
                assert(l@.active_username == Some(u@));
            }
            false
        },
    }
}

/// The index text for models whose timestamps a 64-bit integer can carry.
spec fn idx_at(s: Seq<char>, m: IndexV) -> bool {
    m.fits() && s == index_json(m)
}

/// A suffix equality yields the text of its first half in place, and steps
/// past it.
proof fn lemma_suffix_step(s: Seq<char>, j: int, t1: Seq<char>, t2: Seq<char>)
    requires
        0 <= j <= s.len(),
        s.skip(j) == t1 + t2,
    ensures
        text_at(s, j, t1),
        j + t1.len() <= s.len(),
        s.skip(j + t1.len()) == t2,
{
    assert(s.skip(j).len() == s.len() - j);
    assert(s.subrange(j, j + t1.len()) =~= (t1 + t2).subrange(0, t1.len() as int));
    assert((t1 + t2).subrange(0, t1.len() as int) =~= t1);
    assert(s.skip(j + t1.len()) =~= (t1 + t2).subrange(t1.len() as int, (t1 + t2).len() as int));
    assert((t1 + t2).subrange(t1.len() as int, (t1 + t2).len() as int) =~= t2);
}

/// What follows the entry list in the index text.
spec fn idx_tail(m: IndexV) -> Seq<char> {
    ",\"active_username\":"@ + (jopt(m.active_username) + "}"@)
}

/// The index text is its opening key, the entries, and the tail.
proof fn lemma_index_split(m: IndexV)
    ensures
        index_json(m) == "{\"accounts\":["@ + (entries_rest(m.accounts, 0) + idx_tail(m)),
{
    assert(index_json(m) =~= "{\"accounts\":["@ + (entries_rest(m.accounts, 0) + idx_tail(m)));
}

/// The canonical-text hypothesis threaded through the entry-list parser:
/// the whole text encodes the index `m`, and from `j0` on what remains is
/// the entry list followed by the tail.
spec fn entries_thread(s: Seq<char>, j0: int, m: IndexV) -> bool {
    idx_at(s, m) && s.skip(j0) == entries_rest(m.accounts, 0) + idx_tail(m)
}

/// Reads the entry list of the index: entries separated by commas and
/// closed by `]`.  Whenever the text encodes some index, exactly its
/// entries come back, with the tail left over.
#[verifier::loop_isolation(false)]
#[verifier::rlimit(100)]
fn parse_entries(s: &str, n: usize, j0: usize) -> (r: Option<(Vec<AccountInfo>, usize)>)
    requires
        n == s@.len(),
        j0 <= n,
    ensures
        r matches Some(p) ==> j0 <= p.1 <= n,
        forall|m: IndexV|
            #[trigger] entries_thread(s@, j0 as int, m) ==> (r matches Some(p) && accounts_view(
                p.0@,
            ) == m.accounts && s@.skip(p.1 as int) == idx_tail(m)),
{
    proof {
        reveal_strlit("{\"username\":");
    }
    let mut accounts: Vec<AccountInfo> = Vec::new();
    let mut j = j0;
    let mut done = false;
    proof {
        assert(accounts_view(accounts@) =~= Seq::<AccountInfoV>::empty());
        assert forall|m: IndexV|
            #[trigger] entries_thread(s@, j0 as int, m) implies accounts_view(accounts@)
            == m.accounts.take(accounts@.len() as int) by {
            assert(m.accounts.take(0) =~= Seq::<AccountInfoV>::empty());
        }
    }
    while !done
        invariant
            j0 <= j <= n,
            accounts@.len() <= j,
            !done ==> forall|m: IndexV|
                #[trigger] entries_thread(s@, j0 as int, m) ==> (accounts@.len()
                    <= m.accounts.len() && accounts_view(accounts@) == m.accounts.take(
                    accounts@.len() as int,
                ) && s@.skip(j as int) == entries_rest(m.accounts, accounts@.len() as int)
                    + idx_tail(m)),
            done ==> forall|m: IndexV|
                #[trigger] entries_thread(s@, j0 as int, m) ==> (accounts_view(accounts@)
                    == m.accounts && s@.skip(j as int) == idx_tail(m)),
        decreases n - j, 1int - (if done {
            1int
        } else {
            0int
        }),
    {
        let ghost k = accounts@.len() as int;
        if j >= n {
            proof {
                assert forall|m: IndexV| !(#[trigger] entries_thread(s@, j0 as int, m)) by {
                    if entries_thread(s@, j0 as int, m) {
                        assert(s@.skip(j as int).len() == 0);
                        assert(entries_rest(m.accounts, k).len() >= 1);
                        assert((entries_rest(m.accounts, k) + idx_tail(m)).len() >= 1);
                    }
                }
            }
            return None;
        }
        let c = s.get_char(j);
        proof {
            assert forall|m: IndexV|
                #[trigger] entries_thread(s@, j0 as int, m) implies s@[j as int] == entries_rest(
                m.accounts,
                k,
            )[0] by {
                assert(s@.skip(j as int)[0] == s@[j as int]);
                assert(entries_rest(m.accounts, k).len() >= 1);
                assert((entries_rest(m.accounts, k) + idx_tail(m))[0] == entries_rest(
                    m.accounts,
                    k,
                )[0]);
            }
            assert forall|m: IndexV, kk: int|
                0 <= kk < m.accounts.len() implies (#[trigger] entries_rest(m.accounts, kk))[(
                if kk == 0 {
                    0int
                } else {
                    1int
                })] == '{' by {
                lemma_account_split(m.accounts[kk]);
                assert(account_json(m.accounts[kk])[0] == '{');
            }
        }
        if c == ']' {
            proof {
                assert forall|m: IndexV|
                    #[trigger] entries_thread(s@, j0 as int, m) implies k == m.accounts.len()
                    && accounts_view(accounts@) == m.accounts && s@.skip(j + 1) == idx_tail(m) by {
                    if k < m.accounts.len() {
                        if k == 0 {
                            assert(entries_rest(m.accounts, k)[0] == '{');
                        } else {
                            assert(entries_rest(m.accounts, k)[0] == ',');
                        }
                        assert(false);
                    }
                    assert(m.accounts.take(k) =~= m.accounts);
                    assert(entries_rest(m.accounts, k) =~= seq![']']);
                    lemma_suffix_step(s@, j as int, seq![']'], idx_tail(m));
                }
            }
            j += 1;
            done = true;
        } else if accounts.len() == 0 {
            proof {
                assert forall|m: IndexV|
                    #[trigger] entries_thread(s@, j0 as int, m) implies m.accounts.len() >= 1
                    && acc_at(s@, j as int, m.accounts[0]) && s@.skip(
                    j + account_json(m.accounts[0]).len(),
                ) == entries_rest(m.accounts, 1) + idx_tail(m) by {
                    if m.accounts.len() == 0 {
                        assert(entries_rest(m.accounts, 0) =~= seq![']']);
                        assert(s@[j as int] == ']');
                        assert(false);
                    }
                    assert(entries_rest(m.accounts, 0) =~= account_json(m.accounts[0])
                        + entries_rest(m.accounts, 1));
                    assert((account_json(m.accounts[0]) + entries_rest(m.accounts, 1)) + idx_tail(
                        m,
                    ) =~= account_json(m.accounts[0]) + (entries_rest(m.accounts, 1) + idx_tail(
                        m,
                    )));
                    assert(s@.skip(j as int) == account_json(m.accounts[0]) + (entries_rest(
                        m.accounts,
                        1,
                    ) + idx_tail(m)));
                    lemma_suffix_step(
                        s@,
                        j as int,
                        account_json(m.accounts[0]),
                        entries_rest(m.accounts, 1) + idx_tail(m),
                    );
                }
            }
            let (acc, j2) = match parse_account(s, n, j) {
                Some(p) => p,
                None => {
                    proof {
                        assert forall|m: IndexV| !(#[trigger] entries_thread(s@, j0 as int, m)) by {
                            if entries_thread(s@, j0 as int, m) {
                                assert(acc_at(s@, j as int, m.accounts[0]));
                            }
                        }
                    }
                    return None;
                },
            };
            proof {
                assert forall|m: IndexV|
                    #[trigger] entries_thread(s@, j0 as int, m) implies 1 <= m.accounts.len()
                    && accounts_view(accounts@.push(acc)) == m.accounts.take(1) && s@.skip(
                    j2 as int,
                ) == entries_rest(m.accounts, 1) + idx_tail(m) by {
                    assert(acc_at(s@, j as int, m.accounts[0]));
                    assert(acc@ == m.accounts[0]);
                    assert(accounts_view(accounts@.push(acc)) =~= m.accounts.take(1));
                }
            }
            accounts.push(acc);
            j = j2;
        } else if c == ',' {
            proof {
                assert forall|m: IndexV|
                    #[trigger] entries_thread(s@, j0 as int, m) implies k < m.accounts.len()
                    && acc_at(s@, j + 1, m.accounts[k]) && s@.skip(
                    j + 1 + account_json(m.accounts[k]).len(),
                ) == entries_rest(m.accounts, k + 1) + idx_tail(m) by {
                    if k >= m.accounts.len() {
                        assert(entries_rest(m.accounts, k) =~= seq![']']);
                        assert(s@[j as int] == ']');
                        assert(false);
                    }
                    assert(entries_rest(m.accounts, k) =~= seq![','] + (account_json(
                        m.accounts[k],
                    ) + entries_rest(m.accounts, k + 1)));
                    assert((seq![','] + (account_json(m.accounts[k]) + entries_rest(
                        m.accounts,
                        k + 1,
                    ))) + idx_tail(m) =~= seq![','] + ((account_json(m.accounts[k]) + entries_rest(
                        m.accounts,
                        k + 1,
                    )) + idx_tail(m)));
                    assert(s@.skip(j as int) == seq![','] + ((account_json(m.accounts[k])
                        + entries_rest(m.accounts, k + 1)) + idx_tail(m)));
                    lemma_suffix_step(
                        s@,
                        j as int,
                        seq![','],
                        (account_json(m.accounts[k]) + entries_rest(m.accounts, k + 1)) + idx_tail(
                            m,
                        ),
                    );
                    assert((account_json(m.accounts[k]) + entries_rest(m.accounts, k + 1))
                        + idx_tail(m) =~= account_json(m.accounts[k]) + (entries_rest(
                        m.accounts,
                        k + 1,
                    ) + idx_tail(m)));
                    lemma_suffix_step(
                        s@,
                        j + 1,
                        account_json(m.accounts[k]),
                        entries_rest(m.accounts, k + 1) + idx_tail(m),
                    );
                }
            }
            let (acc, j2) = match parse_account(s, n, j + 1) {
                Some(p) => p,
                None => {
                    proof {
                        assert forall|m: IndexV| !(#[trigger] entries_thread(s@, j0 as int, m)) by {
                            if entries_thread(s@, j0 as int, m) {
                                assert(acc_at(s@, j + 1, m.accounts[k]));
                            }
                        }
                    }
                    return None;
                },
            };
            proof {
                assert forall|m: IndexV|
                    #[trigger] entries_thread(s@, j0 as int, m) implies k + 1 <= m.accounts.len()
                    && accounts_view(accounts@.push(acc)) == m.accounts.take(k + 1) && s@.skip(
                    j2 as int,
                ) == entries_rest(m.accounts, k + 1) + idx_tail(m) by {
                    assert(acc_at(s@, j + 1, m.accounts[k]));
                    assert(acc@ == m.accounts[k]);
                    assert(accounts_view(accounts@.push(acc)) =~= m.accounts.take(k + 1));
                }
            }
            accounts.push(acc);
            j = j2;
        } else {
            proof {
                assert forall|m: IndexV| !(#[trigger] entries_thread(s@, j0 as int, m)) by {
                    if entries_thread(s@, j0 as int, m) {
                        if k >= m.accounts.len() {
                            assert(entries_rest(m.accounts, k) =~= seq![']']);
                            assert(s@[j as int] == ']');
                        } else {
                            assert(entries_rest(m.accounts, k)[0] == ',');
                        }
                    }
                }
            }
            return None;
        }
    }
    Some((accounts, j))
}

/// Reads the account index back from its canonical text.  Succeeds exactly
/// on the canonical text of a well-formed index and returns that index:
/// whatever parses is re-encoded and compared, so nothing non-canonical is
/// ever accepted, and the invariant of the parsed index is checked before
/// it is handed out.
#[verifier::rlimit(100)]
pub fn decode_index(s: &str) -> (r: Result<AccountsList, VaultError>)
    ensures
        match r {
            Ok(l) => l@.wf() && l@.fits() && index_json(l@) == s@,
            Err(e) => e == VaultError::SerializationError && (forall|m: IndexV|
                m.wf() && m.fits() ==> index_json(m) != s@),
        },
{
    let n = s.unicode_len();
    proof {
        reveal_strlit("{\"accounts\":[");
        reveal_strlit(",\"active_username\":");
        reveal_strlit("}");
        assert forall|m: IndexV| #[trigger] idx_at(s@, m) implies s@.skip(0) == "{\"accounts\":["@
            + (entries_rest(m.accounts, 0) + idx_tail(m)) by {
            lemma_index_split(m);
            assert(s@.skip(0) =~= s@);
        }
    }
    let j0 = match eat_lit(s, n, 0, "{\"accounts\":[", 13) {
        Some(j) => j,
        None => {
            proof {
                assert forall|m: IndexV| m.wf() && m.fits() implies index_json(m) != s@ by {
                    if index_json(m) == s@ {
                        assert(idx_at(s@, m));
                        lemma_suffix_step(
                            s@,
                            0,
                            "{\"accounts\":["@,
                            entries_rest(m.accounts, 0) + idx_tail(m),
                        );
                    }
                }
            }
            return Err(VaultError::SerializationError);
        },
    };
    proof {
        assert forall|m: IndexV| #[trigger] idx_at(s@, m) implies entries_thread(
            s@,
            j0 as int,
            m,
        ) by {
            lemma_suffix_step(s@, 0, "{\"accounts\":["@, entries_rest(m.accounts, 0) + idx_tail(m));
        }
    }
    let (accounts, j) = match parse_entries(s, n, j0) {
        Some(p) => p,
        None => {
            proof {
                assert forall|m: IndexV| m.wf() && m.fits() implies index_json(m) != s@ by {
                    if index_json(m) == s@ {
                        assert(idx_at(s@, m));
                        assert(entries_thread(s@, j0 as int, m));
                    }
                }
            }
            return Err(VaultError::SerializationError);
        },
    };
    proof {
        assert forall|m: IndexV|
            #[trigger] idx_at(s@, m) implies accounts_view(accounts@) == m.accounts && s@.skip(
            j as int,
        ) == idx_tail(m) by {
            assert(entries_thread(s@, j0 as int, m));
        }
    }
    let j_mid = match eat_lit(s, n, j, ",\"active_username\":", 19) {
        Some(x) => x,
        None => {
            proof {
                assert forall|m: IndexV| m.wf() && m.fits() implies index_json(m) != s@ by {
                    if index_json(m) == s@ {
                        assert(idx_at(s@, m));
                        lemma_suffix_step(
                            s@,
                            j as int,
                            ",\"active_username\":"@,
                            jopt(m.active_username) + "}"@,
                        );
                    }
                }
            }
            return Err(VaultError::SerializationError);
        },
    };
    proof {
        assert forall|m: IndexV|
            #[trigger] idx_at(s@, m) implies s@.skip(j_mid as int) == jopt(m.active_username)
            + "}"@ by {
            lemma_suffix_step(
                s@,
                j as int,
                ",\"active_username\":"@,
                jopt(m.active_username) + "}"@,
            );
        }
    }
    let (active, j_act) = match parse_opt_string(s, n, j_mid) {
        Some(p) => p,
        None => {
            proof {
                assert forall|m: IndexV| m.wf() && m.fits() implies index_json(m) != s@ by {
                    if index_json(m) == s@ {
                        assert(idx_at(s@, m));
                        lemma_suffix_step(s@, j_mid as int, jopt(m.active_username), "}"@);
                    }
                }
            }
            return Err(VaultError::SerializationError);
        },
    };
    proof {
        assert forall|m: IndexV|
            #[trigger] idx_at(s@, m) implies opt_text(active) == m.active_username && s@.skip(
            j_act as int,
        ) == "}"@ by {
            lemma_suffix_step(s@, j_mid as int, jopt(m.active_username), "}"@);
        }
    }
    let j_end = match eat_lit(s, n, j_act, "}", 1) {
        Some(x) => x,
        None => {
            proof {
                assert forall|m: IndexV| m.wf() && m.fits() implies index_json(m) != s@ by {
                    if index_json(m) == s@ {
                        assert(idx_at(s@, m));
                        assert(s@.skip(j_act as int) =~= "}"@ + Seq::<char>::empty());
                        lemma_suffix_step(s@, j_act as int, "}"@, Seq::<char>::empty());
                    }
                }
            }
            return Err(VaultError::SerializationError);
        },
    };
    if j_end != n {
        proof {
            assert forall|m: IndexV| m.wf() && m.fits() implies index_json(m) != s@ by {
                if index_json(m) == s@ {
                    assert(idx_at(s@, m));
                    assert(s@.skip(j_act as int) =~= "}"@ + Seq::<char>::empty());
                    lemma_suffix_step(s@, j_act as int, "}"@, Seq::<char>::empty());
                    assert(s@.skip(j_end as int).len() == 0);
                }
            }
        }
        return Err(VaultError::SerializationError);
    }
    let list = AccountsList { accounts, active_username: active };
    proof {
        assert forall|m: IndexV| #[trigger] idx_at(s@, m) implies list@ == m by {
            assert(m.accounts.take(m.accounts.len() as int) =~= m.accounts);
        }
    }
    let encoded = encode_index(&list);
    if !str_eq(encoded.as_str(), s) {
        proof {
            assert forall|m: IndexV| m.wf() && m.fits() implies index_json(m) != s@ by {
                if index_json(m) == s@ {
                    assert(idx_at(s@, m));
                    assert(encoded@ == s@);
                }
            }
        }
        return Err(VaultError::SerializationError);
    }
    if !check_wf(&list) {
        proof {
            assert forall|m: IndexV| m.wf() && m.fits() implies index_json(m) != s@ by {
                if index_json(m) == s@ {
                    assert(idx_at(s@, m));
                    assert(list@ == m);
                }
            }
        }
        return Err(VaultError::SerializationError);
    }
    proof {
        assert(list@.fits()) by {
            assert(forall|x: int|
                0 <= x < list.accounts@.len() ==> list@.accounts[x] == #[trigger] list.accounts@[x]@);
        }
    }
    Ok(list)
}

/// What follows the opening key of a credential record, from each field
/// on.
spec fn cred_v_username(c: CredentialsV) -> Seq<char> {
    jstr(c.username) + cred_k_uuid(c)
}

spec fn cred_k_uuid(c: CredentialsV) -> Seq<char> {
    ",\"uuid\":"@ + cred_v_uuid(c)
}

spec fn cred_v_uuid(c: CredentialsV) -> Seq<char> {
    jstr(c.uuid) + cred_k_token(c)
}

spec fn cred_k_token(c: CredentialsV) -> Seq<char> {
    ",\"token\":"@ + cred_v_token(c)
}

spec fn cred_v_token(c: CredentialsV) -> Seq<char> {
    jopt(c.token) + cred_k_session(c)
}

spec fn cred_k_session(c: CredentialsV) -> Seq<char> {
    ",\"session_data\":"@ + cred_v_session(c)
}

spec fn cred_v_session(c: CredentialsV) -> Seq<char> {
    jopt(c.session_data) + cred_k_created(c)
}

spec fn cred_k_created(c: CredentialsV) -> Seq<char> {
    ",\"created_at\":"@ + cred_v_created(c)
}

spec fn cred_v_created(c: CredentialsV) -> Seq<char> {
    dec_rep(c.created_at) + cred_k_last(c)
}

spec fn cred_k_last(c: CredentialsV) -> Seq<char> {
    ",\"last_used\":"@ + cred_v_last(c)
}

spec fn cred_v_last(c: CredentialsV) -> Seq<char> {
    dec_rep(c.last_used) + "}"@
}

/// A credential record's text is its opening key followed by the field
/// chain.
#[verifier::rlimit(100)]
proof fn lemma_creds_split(c: CredentialsV)
    ensures
        creds_json(c) == "{\"username\":"@ + cred_v_username(c),
{
    assert(creds_json(c) =~= "{\"username\":"@ + cred_v_username(c));
}

/// The whole text is the record of `c`, with timestamps a 64-bit integer
/// can carry.
spec fn creds_text_of(s: Seq<char>, c: CredentialsV) -> bool {
    c.fits() && s == creds_json(c)
}

/// Reads a whole credential record.  Whenever the text is some record's
/// canonical form, exactly that record comes back.
#[verifier::rlimit(50)]
fn parse_credentials(s: &str, n: usize) -> (r: Option<Credentials>)
    requires
        n == s@.len(),
    ensures
        forall|c: CredentialsV|
            #[trigger] creds_text_of(s@, c) ==> (r matches Some(p) && p@ == c),
{
    proof {
        reveal_strlit("{\"username\":");
        reveal_strlit(",\"uuid\":");
        reveal_strlit(",\"token\":");
        reveal_strlit(",\"session_data\":");
        reveal_strlit(",\"created_at\":");
        reveal_strlit(",\"last_used\":");
        reveal_strlit("}");
        assert(',' as int == 44 && '}' as int == 125 && '0' as int == 48 && '9' as int == 57);
        assert(!is_dec_digit(',') && !is_dec_digit('}'));
        assert forall|c: CredentialsV| #[trigger] creds_text_of(s@, c) implies s@.skip(0)
            == "{\"username\":"@ + cred_v_username(c) by {
            lemma_creds_split(c);
            assert(s@.skip(0) =~= s@);
        }
    }
    let j0 = match eat_lit(s, n, 0, "{\"username\":", 12) {
        Some(j) => j,
        None => {
            proof {
                assert forall|c: CredentialsV| !(#[trigger] creds_text_of(s@, c)) by {
                    if creds_text_of(s@, c) {
                        lemma_suffix_step(s@, 0, "{\"username\":"@, cred_v_username(c));
                    }
                }
            }
            return None;
        },
    };
    proof {
        assert forall|c: CredentialsV| #[trigger] creds_text_of(s@, c) implies s@.skip(j0 as int)
            == cred_v_username(c) by {
            lemma_suffix_step(s@, 0, "{\"username\":"@, cred_v_username(c));
        }
    }
    let (username, j1) = match parse_string(s, n, j0) {
        Some(p) => p,
        None => {
            proof {
                assert forall|c: CredentialsV| !(#[trigger] creds_text_of(s@, c)) by {
                    if creds_text_of(s@, c) {
                        lemma_suffix_step(s@, j0 as int, jstr(c.username), cred_k_uuid(c));
                    }
                }
            }
            return None;
        },
    };
    proof {
        assert forall|c: CredentialsV| #[trigger] creds_text_of(s@, c) implies username@
            == c.username && j1 == j0 + jstr(c.username).len() && s@.skip(j1 as int)
            == cred_k_uuid(c) by {
            lemma_suffix_step(s@, j0 as int, jstr(c.username), cred_k_uuid(c));
        }
    }
    let j2 = match eat_lit(s, n, j1, ",\"uuid\":", 8) {
        Some(j) => j,
        None => {
            proof {
                assert forall|c: CredentialsV| !(#[trigger] creds_text_of(s@, c)) by {
                    if creds_text_of(s@, c) {
                        lemma_suffix_step(s@, j1 as int, ",\"uuid\":"@, cred_v_uuid(c));
                    }
                }
            }
            return None;
        },
    };
    proof {
        assert forall|c: CredentialsV| #[trigger] creds_text_of(s@, c) implies s@.skip(j2 as int)
            == cred_v_uuid(c) by {
            lemma_suffix_step(s@, j1 as int, ",\"uuid\":"@, cred_v_uuid(c));
        }
    }
    let (uuid, j3) = match parse_string(s, n, j2) {
        Some(p) => p,
        None => {
            proof {
                assert forall|c: CredentialsV| !(#[trigger] creds_text_of(s@, c)) by {
                    if creds_text_of(s@, c) {
                        lemma_suffix_step(s@, j2 as int, jstr(c.uuid), cred_k_token(c));
                    }
                }
            }
            return None;
        },
    };
    proof {
        assert forall|c: CredentialsV| #[trigger] creds_text_of(s@, c) implies uuid@ == c.uuid
            && j3 == j2 + jstr(c.uuid).len() && s@.skip(j3 as int) == cred_k_token(c) by {
            lemma_suffix_step(s@, j2 as int, jstr(c.uuid), cred_k_token(c));
        }
    }
    let j4 = match eat_lit(s, n, j3, ",\"token\":", 9) {
        Some(j) => j,
        None => {
            proof {
                assert forall|c: CredentialsV| !(#[trigger] creds_text_of(s@, c)) by {
                    if creds_text_of(s@, c) {
                        lemma_suffix_step(s@, j3 as int, ",\"token\":"@, cred_v_token(c));
                    }
                }
            }
            return None;
        },
    };
    proof {
        assert forall|c: CredentialsV| #[trigger] creds_text_of(s@, c) implies s@.skip(j4 as int)
            == cred_v_token(c) by {
            lemma_suffix_step(s@, j3 as int, ",\"token\":"@, cred_v_token(c));
        }
    }
    let (token, j5) = match parse_opt_string(s, n, j4) {
        Some(p) => p,
        None => {
            proof {
                assert forall|c: CredentialsV| !(#[trigger] creds_text_of(s@, c)) by {
                    if creds_text_of(s@, c) {
                        lemma_suffix_step(s@, j4 as int, jopt(c.token), cred_k_session(c));
                    }
                }
            }
            return None;
        },
    };
    proof {
        assert forall|c: CredentialsV| #[trigger] creds_text_of(s@, c) implies opt_text(token)
            == c.token && j5 == j4 + jopt(c.token).len() && s@.skip(j5 as int)
            == cred_k_session(c) by {
            lemma_suffix_step(s@, j4 as int, jopt(c.token), cred_k_session(c));
        }
    }
    let j6 = match eat_lit(s, n, j5, ",\"session_data\":", 16) {
        Some(j) => j,
        None => {
            proof {
                assert forall|c: CredentialsV| !(#[trigger] creds_text_of(s@, c)) by {
                    if creds_text_of(s@, c) {
                        lemma_suffix_step(s@, j5 as int, ",\"session_data\":"@, cred_v_session(c));
                    }
                }
            }
            return None;
        },
    };
    proof {
        assert forall|c: CredentialsV| #[trigger] creds_text_of(s@, c) implies s@.skip(j6 as int)
            == cred_v_session(c) by {
            lemma_suffix_step(s@, j5 as int, ",\"session_data\":"@, cred_v_session(c));
        }
    }
    let (session_data, j7) = match parse_opt_string(s, n, j6) {
        Some(p) => p,
        None => {
            proof {
                assert forall|c: CredentialsV| !(#[trigger] creds_text_of(s@, c)) by {
                    if creds_text_of(s@, c) {
                        lemma_suffix_step(s@, j6 as int, jopt(c.session_data), cred_k_created(c));
                    }
                }
            }
            return None;
        },
    };
    proof {
        assert forall|c: CredentialsV| #[trigger] creds_text_of(s@, c) implies opt_text(
            session_data,
        ) == c.session_data && j7 == j6 + jopt(c.session_data).len() && s@.skip(j7 as int)
            == cred_k_created(c) by {
            lemma_suffix_step(s@, j6 as int, jopt(c.session_data), cred_k_created(c));
        }
    }
    let j8 = match eat_lit(s, n, j7, ",\"created_at\":", 14) {
        Some(j) => j,
        None => {
            proof {
                assert forall|c: CredentialsV| !(#[trigger] creds_text_of(s@, c)) by {
                    if creds_text_of(s@, c) {
                        lemma_suffix_step(s@, j7 as int, ",\"created_at\":"@, cred_v_created(c));
                    }
                }
            }
            return None;
        },
    };
    proof {
        assert forall|c: CredentialsV| #[trigger] creds_text_of(s@, c) implies text_at(
            s@,
            j8 as int,
            dec_rep(c.created_at),
        ) && s@.skip(j8 + dec_rep(c.created_at).len()) == cred_k_last(c) && !is_dec_digit(
            s@[j8 + dec_rep(c.created_at).len()],
        ) by {
            lemma_suffix_step(s@, j7 as int, ",\"created_at\":"@, cred_v_created(c));
            lemma_suffix_step(s@, j8 as int, dec_rep(c.created_at), cred_k_last(c));
            let q = j8 + dec_rep(c.created_at).len();
            assert(s@.skip(q)[0] == s@[q as int]);
            assert(cred_k_last(c)[0] == ',');
        }
    }
    let (created_at, j9) = match parse_i64(s, n, j8) {
        Some(p) => p,
        None => {
            proof {
                assert forall|c: CredentialsV| !(#[trigger] creds_text_of(s@, c)) by {
                    if creds_text_of(s@, c) {
                        // The number token is in place, so the reader
                        // cannot have failed.
                    }
                }
            }
            return None;
        },
    };
    proof {
        assert forall|c: CredentialsV| #[trigger] creds_text_of(s@, c) implies created_at
            == c.created_at && j9 == j8 + dec_rep(c.created_at).len() && s@.skip(j9 as int)
            == cred_k_last(c) by {
        }
    }
    let j10 = match eat_lit(s, n, j9, ",\"last_used\":", 13) {
        Some(j) => j,
        None => {
            proof {
                assert forall|c: CredentialsV| !(#[trigger] creds_text_of(s@, c)) by {
                    if creds_text_of(s@, c) {
                        lemma_suffix_step(s@, j9 as int, ",\"last_used\":"@, cred_v_last(c));
                    }
                }
            }
            return None;
        },
    };
    proof {
        assert forall|c: CredentialsV| #[trigger] creds_text_of(s@, c) implies text_at(
            s@,
            j10 as int,
            dec_rep(c.last_used),
        ) && s@.skip(j10 + dec_rep(c.last_used).len()) == "}"@ && (j10 + dec_rep(c.last_used).len()
            == n || !is_dec_digit(s@[j10 + dec_rep(c.last_used).len()])) by {
            lemma_suffix_step(s@, j9 as int, ",\"last_used\":"@, cred_v_last(c));
            lemma_suffix_step(s@, j10 as int, dec_rep(c.last_used), "}"@);
            let q = j10 + dec_rep(c.last_used).len();
            assert(s@.skip(q)[0] == s@[q as int]);
        }
    }
    let (last_used, j11) = match parse_i64(s, n, j10) {
        Some(p) => p,
        None => {
            proof {
                assert forall|c: CredentialsV| !(#[trigger] creds_text_of(s@, c)) by {
                    if creds_text_of(s@, c) {
                        // The number token is in place, so the reader
                        // cannot have failed.
                    }
                }
            }
            return None;
        },
    };
    proof {
        assert forall|c: CredentialsV| #[trigger] creds_text_of(s@, c) implies last_used
            == c.last_used && j11 == j10 + dec_rep(c.last_used).len() && s@.skip(j11 as int)
            == "}"@ by {
        }
    }
    let j12 = match eat_lit(s, n, j11, "}", 1) {
        Some(j) => j,
        None => {
            proof {
                assert forall|c: CredentialsV| !(#[trigger] creds_text_of(s@, c)) by {
                    if creds_text_of(s@, c) {
                        assert(s@.skip(j11 as int) =~= "}"@ + Seq::<char>::empty());
                        lemma_suffix_step(s@, j11 as int, "}"@, Seq::<char>::empty());
                    }
                }
            }
            return None;
        },
    };
    if j12 != n {
        proof {
            assert forall|c: CredentialsV| !(#[trigger] creds_text_of(s@, c)) by {
                if creds_text_of(s@, c) {
                    assert(s@.skip(j11 as int) =~= "}"@ + Seq::<char>::empty());
                    lemma_suffix_step(s@, j11 as int, "}"@, Seq::<char>::empty());
                    assert(s@.skip(j12 as int).len() == 0);
                }
            }
        }
        return None;
    }
    let record = Credentials { username, uuid, token, session_data, created_at, last_used };
    proof {
        assert forall|c: CredentialsV| #[trigger] creds_text_of(s@, c) implies record@ == c by {}
    }
    Some(record)
}

/// Reads a credential record back from its canonical text.  Succeeds
/// exactly on the canonical text of a record and returns that record:
/// whatever parses is re-encoded and compared, so nothing non-canonical is
/// ever accepted.
pub fn decode_credentials(s: &str) -> (r: Result<Credentials, VaultError>)
    ensures
        match r {
            Ok(c) => creds_json(c@) == s@,
            Err(e) => e == VaultError::SerializationError && (forall|c: CredentialsV|
                c.fits() ==> creds_json(c) != s@),
        },
{
    let n = s.unicode_len();
    match parse_credentials(s, n) {
        None => {
            proof {
                assert forall|c: CredentialsV| c.fits() implies creds_json(c) != s@ by {
                    if creds_json(c) == s@ {
                        assert(creds_text_of(s@, c));
                    }
                }
            }
            Err(VaultError::SerializationError)
        },
        Some(c) => {
            let encoded = encode_credentials(&c);
            if str_eq(encoded.as_str(), s) {
                Ok(c)
            } else {
                proof {
                    assert forall|cv: CredentialsV| cv.fits() implies creds_json(cv) != s@ by {
                        if creds_json(cv) == s@ {
                            assert(creds_text_of(s@, cv));
                            assert(encoded@ == s@);
                        }
                    }
                }
                Err(VaultError::SerializationError)
            }
        },
    }
}

} // verus!
