//! What the Reader API client sends and reads, apart from the transport:
//! form and query parameters, the `Authorization` header, the tokens read
//! from response bodies, and the edit-token retry rule.
use vstd::prelude::*;
use crate::chars::{chars_of, push_range, push_str_chars, split_at_char, string_from_chars, trim_text, trimmed};
use crate::database::opml::strs_view;
use crate::network::discovery::starts_with;
use crate::network::inoreader::{item_id_parameter, item_id_text, ItemIDType, ReaderAPISubscription};

verus! {

/// One form or query parameter.
pub open spec fn pairs_view(v: Seq<(String, String)>) -> Seq<(Seq<char>, Seq<char>)> {
    v.map_values(|p: (String, String)| (p.0@, p.1@))
}

fn text_of(s: &str) -> (r: String)
    ensures
        r@ == s@,
{
    String::from_str(s)
}

fn concat(a: &str, b: &str) -> (r: String)
    ensures
        r@ == a@ + b@,
{
    let mut v: Vec<char> = Vec::new();
    push_str_chars(&mut v, a);
    push_str_chars(&mut v, b);
    string_from_chars(v.as_slice())
}

fn push_pair(out: &mut Vec<(String, String)>, k: &str, v: String)
    ensures
        pairs_view(final(out)@) == pairs_view(old(out)@).push((k@, v@)),
{
    let ghost before = out@;
    let ghost vv = v@;
    out.push((text_of(k), v));
    assert(pairs_view(out@) =~= pairs_view(before).push((k@, vv)));
}

/// The `Authorization` header value for an auth token.
pub open spec fn authorization_text(auth_token: Seq<char>) -> Seq<char> {
    "GoogleLogin auth="@ + auth_token
}

pub fn authorization_header(auth_token: &str) -> (r: String)
    ensures
        r@ == authorization_text(auth_token@),
{
    concat("GoogleLogin auth=", auth_token)
}

/// The stream id of a label (folder) name.
pub open spec fn label_stream_text(name: Seq<char>) -> Seq<char> {
    "user/-/label/"@ + name
}

pub fn label_stream(name: &str) -> (r: String)
    ensures
        r@ == label_stream_text(name@),
{
    concat("user/-/label/", name)
}

/// A line as `str::lines` yields it: without its `\n`, and without a `\r`
/// just before that `\n`.
pub open spec fn line_text(parts: Seq<Seq<char>>, i: int) -> Seq<char> {
    let p = parts[i];
    if i < parts.len() - 1 && p.len() > 0 && p.last() == '\r' {
        p.drop_last()
    } else {
        p
    }
}

pub open spec fn auth_prefix() -> Seq<char> {
    seq!['A', 'u', 't', 'h', '=']
}

/// The auth token of a login response: what follows `Auth=` on the first
/// line that starts with it.
pub open spec fn login_token(body: Seq<char>) -> Option<Seq<char>> {
    let parts = split_at_char(body, '\n');
    if exists|i: int| 0 <= i < parts.len() && #[trigger] starts_with(line_text(parts, i), auth_prefix()) {
        let i = choose|i: int|
            0 <= i < parts.len() && #[trigger] starts_with(line_text(parts, i), auth_prefix()) && forall|j: int|
                0 <= j < i ==> !starts_with(#[trigger] line_text(parts, j), auth_prefix());
        Some(line_text(parts, i).skip(5))
    } else {
        None
    }
}

/// The auth token of a login response body (`login_token`).
pub fn login_auth_token(body: &str) -> (r: Option<String>)
    ensures
        match r {
            Some(t) => login_token(body@) == Some(t@),
            None => login_token(body@) is None,
        },
{
    let v = chars_of(body);
    let n = v.len();
    let ghost parts = split_at_char(body@, '\n');
    let mut parts_exec: Vec<Vec<char>> = Vec::new();
    let mut line: Vec<char> = Vec::new();
    let mut i: usize = 0;
    proof {
        assert(v@.take(0) =~= Seq::<char>::empty());
    }
    while i < n
        invariant
            n == v@.len(),
            i <= n,
            v@ == body@,
            split_at_char(v@.take(i as int), '\n').len() == parts_exec@.len() + 1,
            forall|k: int| 0 <= k < parts_exec@.len() ==> #[trigger] parts_exec@[k]@ == split_at_char(v@.take(i as int), '\n')[k],
            line@ == split_at_char(v@.take(i as int), '\n').last(),
        decreases n - i,
    {
        let ghost ps = split_at_char(v@.take(i as int), '\n');
        assert(v@.take(i + 1).drop_last() =~= v@.take(i as int));
        assert(v@.take(i + 1).last() == v@[i as int]);
        if v[i] == '\n' {
            let ghost lv = line@;
            parts_exec.push(line);
            line = Vec::new();
            assert(ps.push(seq![]).len() == parts_exec@.len() + 1);
            assert forall|k: int| 0 <= k < parts_exec@.len() implies #[trigger] parts_exec@[k]@ == ps.push(
                seq![],
            )[k] by {
                if k == parts_exec@.len() - 1 {
                    assert(parts_exec@[k]@ == lv);
                }
            }
        } else {
            line.push(v[i]);
        }
        i += 1;
    }
    assert(v@.take(n as int) =~= v@);
    parts_exec.push(line);
    assert(parts_exec@.len() == parts.len());
    assert forall|k: int| 0 <= k < parts.len() implies #[trigger] parts_exec@[k]@ == parts[k] by {}
    let count = parts_exec.len();
    let prefix: [char; 5] = ['A', 'u', 't', 'h', '='];
    assert(prefix@ == auth_prefix());
    let mut k: usize = 0;
    while k < count
        invariant
            count == parts_exec@.len(),
            count == parts.len(),
            k <= count,
            prefix@ == auth_prefix(),
            parts == split_at_char(body@, '\n'),
            forall|m: int| 0 <= m < count ==> #[trigger] parts_exec@[m]@ == parts[m],
            forall|j: int| 0 <= j < k ==> !starts_with(#[trigger] line_text(parts, j), auth_prefix()),
        decreases count - k,
    {
        let p = &parts_exec[k];
        let len = if k + 1 < count && p.len() > 0 && p[p.len() - 1] == '\r' { p.len() - 1 } else { p.len() };
        assert(p@.subrange(0, len as int) =~= line_text(parts, k as int));
        if len >= 5 && crate::chars::range_eq(p.as_slice(), 0, 5, &prefix) {
            assert(line_text(parts, k as int).take(5) =~= p@.subrange(0, 5));
            let mut rest: Vec<char> = Vec::new();
            push_range(&mut rest, p.as_slice(), 5, len);
            proof {
                let lt = line_text(parts, k as int);
                assert(starts_with(lt, auth_prefix()));
                assert(rest@ =~= lt.skip(5));
                let c = choose|c: int|
                    0 <= c < parts.len() && #[trigger] starts_with(line_text(parts, c), auth_prefix()) && forall|j: int|
                        0 <= j < c ==> !starts_with(#[trigger] line_text(parts, j), auth_prefix());
                assert(c == k) by {
                    if c < k {
                        assert(!starts_with(line_text(parts, c), auth_prefix()));
                    } else if c > k {
                        assert(!starts_with(line_text(parts, k as int), auth_prefix()));
                    }
                }
            }
            return Some(string_from_chars(rest.as_slice()));
        }
        assert(len >= 5 ==> line_text(parts, k as int).take(5) =~= p@.subrange(0, 5));
        k += 1;
    }
    None
}

/// The edit token of a token response: the body trimmed, when not empty.
pub open spec fn edit_token_text(body: Seq<char>) -> Option<Seq<char>> {
    if trimmed(body).len() > 0 {
        Some(trimmed(body))
    } else {
        None
    }
}

pub fn edit_token(body: &str) -> (r: Option<String>)
    ensures
        match r {
            Some(t) => edit_token_text(body@) == Some(t@),
            None => edit_token_text(body@) is None,
        },
{
    let t = trim_text(body);
    if t.as_str().is_empty() {
        None
    } else {
        Some(t)
    }
}

/// A write answered 401 or 403 is retried once with a fresh edit token.
pub open spec fn token_rejected(status: u16) -> bool {
    status == 401 || status == 403
}

pub fn needs_fresh_token(status: u16) -> (b: bool)
    ensures
        b == token_rejected(status),
{
    status == 401 || status == 403
}

/// The `i` parameters of article ids, skipping ids that cannot be encoded.
pub open spec fn item_params(ids: Seq<Seq<char>>) -> Seq<(Seq<char>, Seq<char>)>
    decreases ids.len(),
{
    if ids.len() == 0 {
        seq![]
    } else {
        match item_id_text(ids.last()) {
            Some(p) => item_params(ids.drop_last()).push(("i"@, p)),
            None => item_params(ids.drop_last()),
        }
    }
}

fn push_item_params(out: &mut Vec<(String, String)>, ids: &[String])
    ensures
        pairs_view(final(out)@) == pairs_view(old(out)@) + item_params(strs_view(ids@)),
{
    let ghost start = pairs_view(out@);
    let mut i: usize = 0;
    assert(strs_view(ids@).take(0) =~= Seq::<Seq<char>>::empty());
    assert(start + Seq::<(Seq<char>, Seq<char>)>::empty() =~= start);
    while i < ids.len()
        invariant
            i <= ids@.len(),
            pairs_view(out@) == start + item_params(strs_view(ids@).take(i as int)),
        decreases ids@.len() - i,
    {
        let ghost t = strs_view(ids@).take(i + 1);
        assert(t.drop_last() =~= strs_view(ids@).take(i as int));
        assert(t.last() == ids@[i as int]@);
        match item_id_parameter(ids[i].as_str()) {
            Some(p) => {
                let ghost before = pairs_view(out@);
                push_pair(out, "i", p);
                assert(before.push(("i"@, p@)) =~= start + item_params(strs_view(ids@).take(i as int)).push(
                    ("i"@, p@),
                ));
            },
            None => {},
        }
        i += 1;
    }
    assert(strs_view(ids@).take(ids@.len() as int) =~= strs_view(ids@));
}

/// The edit-tag form: the token, `a` (add) or `r` (remove) with the state
/// stream, and the items.
pub open spec fn edit_tag_params(token: Seq<char>, ids: Seq<Seq<char>>, state: Seq<char>, add: bool) -> Seq<
    (Seq<char>, Seq<char>),
> {
    seq![("T"@, token), (if add { "a"@ } else { "r"@ }, state)] + item_params(ids)
}

pub fn edit_tag_form(token: &str, ids: &[String], state: &str, add: bool) -> (r: Vec<(String, String)>)
    ensures
        pairs_view(r@) == edit_tag_params(token@, strs_view(ids@), state@, add),
{
    let mut out: Vec<(String, String)> = Vec::new();
    push_pair(&mut out, "T", text_of(token));
    push_pair(&mut out, if add { "a" } else { "r" }, text_of(state));
    push_item_params(&mut out, ids);
    out
}

/// The contents form: the token, JSON output, and the items.
pub open spec fn contents_params(token: Seq<char>, ids: Seq<Seq<char>>) -> Seq<(Seq<char>, Seq<char>)> {
    seq![("T"@, token), ("output"@, "json"@)] + item_params(ids)
}

pub fn contents_form(token: &str, ids: &[String]) -> (r: Vec<(String, String)>)
    ensures
        pairs_view(r@) == contents_params(token@, strs_view(ids@)),
{
    let mut out: Vec<(String, String)> = Vec::new();
    push_pair(&mut out, "T", text_of(token));
    push_pair(&mut out, "output", text_of("json"));
    push_item_params(&mut out, ids);
    out
}

/// The subscription-edit form: the token, the subscription, `ac=edit`,
/// then the label to remove, the label to add and the new title, each
/// when given.
pub open spec fn change_subscription_params(
    token: Seq<char>,
    subscription_id: Seq<char>,
    remove_tag: Option<Seq<char>>,
    add_tag: Option<Seq<char>>,
    title: Option<Seq<char>>,
) -> Seq<(Seq<char>, Seq<char>)> {
    let base = seq![("T"@, token), ("s"@, subscription_id), ("ac"@, "edit"@)];
    let r = match remove_tag {
        Some(n) => base.push(("r"@, label_stream_text(n))),
        None => base,
    };
    let a = match add_tag {
        Some(n) => r.push(("a"@, label_stream_text(n))),
        None => r,
    };
    match title {
        Some(t) => a.push(("t"@, t)),
        None => a,
    }
}

pub open spec fn opt_text(o: Option<&str>) -> Option<Seq<char>> {
    match o {
        Some(s) => Some(s@),
        None => None,
    }
}

pub fn change_subscription_form(
    token: &str,
    subscription_id: &str,
    remove_tag_name: Option<&str>,
    add_tag_name: Option<&str>,
    title: Option<&str>,
) -> (r: Vec<(String, String)>)
    ensures
        pairs_view(r@) == change_subscription_params(
            token@,
            subscription_id@,
            opt_text(remove_tag_name),
            opt_text(add_tag_name),
            opt_text(title),
        ),
{
    let mut out: Vec<(String, String)> = Vec::new();
    push_pair(&mut out, "T", text_of(token));
    push_pair(&mut out, "s", text_of(subscription_id));
    push_pair(&mut out, "ac", text_of("edit"));
    match remove_tag_name {
        Some(n) => push_pair(&mut out, "r", label_stream(n)),
        None => {},
    }
    match add_tag_name {
        Some(n) => push_pair(&mut out, "a", label_stream(n)),
        None => {},
    }
    match title {
        Some(t) => push_pair(&mut out, "t", text_of(t)),
        None => {},
    }
    out
}

/// The rename-tag form: the token, the old label and the new one.
pub open spec fn rename_tag_params(token: Seq<char>, old_name: Seq<char>, new_name: Seq<char>) -> Seq<
    (Seq<char>, Seq<char>),
> {
    seq![("T"@, token), ("s"@, label_stream_text(old_name)), ("dest"@, label_stream_text(new_name))]
}

pub fn rename_tag_form(token: &str, old_name: &str, new_name: &str) -> (r: Vec<(String, String)>)
    ensures
        pairs_view(r@) == rename_tag_params(token@, old_name@, new_name@),
{
    let mut out: Vec<(String, String)> = Vec::new();
    push_pair(&mut out, "T", text_of(token));
    push_pair(&mut out, "s", label_stream(old_name));
    push_pair(&mut out, "dest", label_stream(new_name));
    out
}

/// The item-id query: 1000 ids per page as JSON, the stream the kind asks
/// for (unread excludes the read state), and the continuation when paging
/// on; nothing for a feed's ids without a feed id.
pub open spec fn item_ids_params(kind: ItemIDType, feed_id: Option<Seq<char>>, continuation: Option<Seq<char>>) -> Option<
    Seq<(Seq<char>, Seq<char>)>,
> {
    let base = seq![("n"@, "1000"@), ("output"@, "json"@)];
    let streams = match kind {
        ItemIDType::AllForAccount => Some(base.push(("s"@, "user/-/state/com.google/reading-list"@))),
        ItemIDType::AllForFeed => match feed_id {
            Some(f) => Some(base.push(("s"@, f))),
            None => None,
        },
        ItemIDType::Unread => Some(
            base.push(("s"@, "user/-/state/com.google/reading-list"@)).push(
                ("xt"@, "user/-/state/com.google/read"@),
            ),
        ),
        ItemIDType::Starred => Some(base.push(("s"@, "user/-/state/com.google/starred"@))),
    };
    match streams {
        Some(q) => match continuation {
            Some(c) => Some(q.push(("c"@, c))),
            None => Some(q),
        },
        None => None,
    }
}

pub fn item_ids_query(kind: ItemIDType, feed_id: Option<&str>, continuation: Option<&str>) -> (r: Option<
    Vec<(String, String)>,
>)
    ensures
        match r {
            Some(q) => item_ids_params(kind, opt_text(feed_id), opt_text(continuation)) == Some(pairs_view(q@)),
            None => item_ids_params(kind, opt_text(feed_id), opt_text(continuation)) is None,
        },
{
    let mut out: Vec<(String, String)> = Vec::new();
    push_pair(&mut out, "n", text_of("1000"));
    push_pair(&mut out, "output", text_of("json"));
    match kind {
        ItemIDType::AllForAccount => push_pair(&mut out, "s", text_of("user/-/state/com.google/reading-list")),
        ItemIDType::AllForFeed => match feed_id {
            Some(f) => push_pair(&mut out, "s", text_of(f)),
            None => return None,
        },
        ItemIDType::Unread => {
            push_pair(&mut out, "s", text_of("user/-/state/com.google/reading-list"));
            push_pair(&mut out, "xt", text_of("user/-/state/com.google/read"));
        },
        ItemIDType::Starred => push_pair(&mut out, "s", text_of("user/-/state/com.google/starred")),
    }
    match continuation {
        Some(c) => push_pair(&mut out, "c", text_of(c)),
        None => {},
    }
    Some(out)
}

/// The index of the first subscription whose feed id is `stream_id`.
pub open spec fn first_with_feed_id(subs: Seq<ReaderAPISubscription>, stream_id: Seq<char>) -> Option<int> {
    if exists|i: int| 0 <= i < subs.len() && #[trigger] subs[i].feed_id@ == stream_id {
        Some(
            choose|i: int|
                0 <= i < subs.len() && #[trigger] subs[i].feed_id@ == stream_id && forall|j: int|
                    0 <= j < i ==> #[trigger] subs[j].feed_id@ != stream_id,
        )
    } else {
        None
    }
}

/// Where the subscription a quick-add created stands in the list
/// (`first_with_feed_id`).
pub fn subscription_with_id(subs: &Vec<ReaderAPISubscription>, stream_id: &str) -> (r: Option<usize>)
    ensures
        match r {
            Some(i) => first_with_feed_id(subs@, stream_id@) == Some(i as int),
            None => first_with_feed_id(subs@, stream_id@) is None,
        },
{
    let mut i: usize = 0;
    while i < subs.len()
        invariant
            i <= subs@.len(),
            forall|j: int| 0 <= j < i ==> #[trigger] subs@[j].feed_id@ != stream_id@,
        decreases subs@.len() - i,
    {
        if crate::chars::text_eq(subs[i].feed_id.as_str(), stream_id) {
            proof {
                let c = choose|c: int|
                    0 <= c < subs@.len() && #[trigger] subs@[c].feed_id@ == stream_id@ && forall|j: int|
                        0 <= j < c ==> #[trigger] subs@[j].feed_id@ != stream_id@;
                assert(subs@[i as int].feed_id@ == stream_id@);
                assert(c == i) by {
                    if c < i {
                        assert(subs@[c].feed_id@ != stream_id@);
                    } else if c > i {
                        assert(subs@[i as int].feed_id@ != stream_id@);
                    }
                }
            }
            return Some(i);
        }
        i += 1;
    }
    None
}

/// Missing article ids in downloads of at most `size` ids each, in order.
pub open spec fn batched(ids: Seq<Seq<char>>, size: nat) -> Seq<Seq<Seq<char>>>
    decreases ids.len(),
{
    if ids.len() == 0 || size == 0 {
        seq![]
    } else if ids.len() <= size {
        seq![ids]
    } else {
        seq![ids.take(size as int)] + batched(ids.skip(size as int), size)
    }
}

pub open spec fn batches_view(v: Seq<Vec<String>>) -> Seq<Seq<Seq<char>>> {
    v.map_values(|b: Vec<String>| strs_view(b@))
}

/// The ids in consecutive batches of `size` (the last may be shorter), as
/// `slice::chunks` cuts them.
pub fn id_batches(ids: &[String], size: usize) -> (r: Vec<Vec<String>>)
    requires
        size > 0,
    ensures
        batches_view(r@) == batched(strs_view(ids@), size as nat),
{
    let mut out: Vec<Vec<String>> = Vec::new();
    let mut start: usize = 0;
    let ghost all = strs_view(ids@);
    assert(all.skip(0) =~= all);
    assert(batches_view(out@) + batched(all.skip(0), size as nat) =~= batched(all, size as nat));
    while start < ids.len()
        invariant
            size > 0,
            start <= ids@.len(),
            all == strs_view(ids@),
            batches_view(out@) + batched(all.skip(start as int), size as nat) == batched(all, size as nat),
        decreases ids@.len() - start,
    {
        let end = if ids.len() - start <= size { ids.len() } else { start + size };
        let mut batch: Vec<String> = Vec::new();
        let mut i = start;
        while i < end
            invariant
                start <= i <= end <= ids@.len(),
                strs_view(batch@) == all.subrange(start as int, i as int),
                all == strs_view(ids@),
            decreases end - i,
        {
            let ghost before = batch@;
            batch.push(ids[i].clone());
            assert(strs_view(batch@) =~= strs_view(before).push(ids@[i as int]@));
            assert(all.subrange(start as int, i + 1) =~= all.subrange(start as int, i as int).push(all[i as int]));
            i += 1;
        }
        let ghost rest = all.skip(start as int);
        let ghost bv = strs_view(batch@);
        proof {
            if ids@.len() - start <= size {
                assert(rest =~= bv);
                assert(all.skip(end as int) =~= Seq::<Seq<char>>::empty());
            } else {
                assert(rest.take(size as int) =~= bv);
                assert(rest.skip(size as int) =~= all.skip(end as int));
            }
        }
        let ghost prior = batches_view(out@);
        out.push(batch);
        assert(batches_view(out@) =~= prior.push(bv));
        assert(prior + batched(rest, size as nat) =~= prior.push(bv) + batched(all.skip(end as int), size as nat));
        start = end;
    }
    assert(all.skip(start as int) =~= Seq::<Seq<char>>::empty());
    assert(batches_view(out@) + Seq::<Seq<Seq<char>>>::empty() =~= batches_view(out@));
    out
}

} // verus!
