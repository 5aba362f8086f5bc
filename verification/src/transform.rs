//! The message transformer: a pure function from an inbound message and a
//! role-lookup table to portable text. Every platform mention token is
//! globally substituted by a readable `@name` / `#name` form, the body is
//! trimmed, and an author attribution prefix is attached.

use vstd::prelude::*;
use crate::chars::{
    chars_to_string, is_space, str_to_chars, trim_chars, trim_end_spec, trim_spec,
    trim_start_spec,
};
use crate::digits::{
    channel_token, dec_digits, is_digit, lemma_dec_digits_are_digits, mention_rep, role_token,
    sig_token, user_token, build_channel_token, build_role_token, build_user_token,
};
use crate::matching::{
    append_chars, has_match, match_at, lemma_no_head_no_match, lemma_no_match_concat,
    lemma_no_match_subrange, lemma_replace_no_match, replace_all, replace_all_chars,
};
use crate::message::{InboundMessage, RoleEntry, UserMention, ChannelMention};

verus! {

/// The transformer's only failure: the raw text, trimmed, is empty.
#[derive(Debug, PartialEq, Eq, Clone, Copy)]
pub enum TransformError {
    EmptyContent,
}

/// The text after every user mention, taken in order, has had its token
/// globally replaced by `@display_name`, starting from mention `k`.
pub open spec fn subst_users(s: Seq<char>, ms: Seq<UserMention>, k: int) -> Seq<char>
    decreases ms.len() - k,
{
    if 0 <= k < ms.len() {
        subst_users(
            replace_all(s, user_token(ms[k].id), mention_rep('@', ms[k].display_name@)),
            ms,
            k + 1,
        )
    } else {
        s
    }
}

/// The text after every channel mention, taken in order, has had its token
/// globally replaced by `#display_name`, starting from mention `k`.
pub open spec fn subst_channels(s: Seq<char>, ms: Seq<ChannelMention>, k: int) -> Seq<char>
    decreases ms.len() - k,
{
    if 0 <= k < ms.len() {
        subst_channels(
            replace_all(s, channel_token(ms[k].id), mention_rep('#', ms[k].display_name@)),
            ms,
            k + 1,
        )
    } else {
        s
    }
}

/// The display name the role-lookup capability resolves `id` to, if any:
/// the first table entry with that id.
pub open spec fn role_lookup(table: Seq<RoleEntry>, id: u64) -> Option<Seq<char>>
    decreases table.len(),
{
    if table.len() == 0 {
        None
    } else if table[0].id == id {
        Some(table[0].display_name@)
    } else {
        role_lookup(table.drop_first(), id)
    }
}

/// The text after every role mention whose id the table resolves, taken in
/// order from index `k`, has had its token globally replaced by `@name`;
/// unresolved role tokens are left in place.
pub open spec fn subst_roles(s: Seq<char>, ids: Seq<u64>, table: Seq<RoleEntry>, k: int) -> Seq<
    char,
>
    decreases ids.len() - k,
{
    if 0 <= k < ids.len() {
        let s2 = match role_lookup(table, ids[k]) {
            Some(nm) => replace_all(s, role_token(ids[k]), mention_rep('@', nm)),
            None => s,
        };
        subst_roles(s2, ids, table, k + 1)
    } else {
        s
    }
}

/// The message body after all substitutions and the final trim.
pub open spec fn body_spec(msg: InboundMessage, roles: Seq<RoleEntry>) -> Seq<char> {
    trim_spec(
        subst_roles(
            subst_channels(
                subst_users(msg.raw_text@, msg.user_mentions@, 0),
                msg.channel_mentions@,
                0,
            ),
            msg.role_mentions@,
            roles,
            0,
        ),
    )
}

/// The attribution prefix naming the author and the source platform.
pub open spec fn prefix_spec(msg: InboundMessage) -> Seq<char> {
    msg.author.display_name@ + " (Discord):"@
}

/// The transformer's successful result: the prefix alone when the body
/// collapsed to nothing, otherwise prefix, a space, and the body.
pub open spec fn transform_result_spec(msg: InboundMessage, roles: Seq<RoleEntry>) -> Seq<char> {
    if body_spec(msg, roles).len() == 0 {
        prefix_spec(msg)
    } else {
        prefix_spec(msg) + seq![' '] + body_spec(msg, roles)
    }
}

/// Resolve a role id through the lookup table.
fn find_role(table: &Vec<RoleEntry>, id: u64) -> (r: Option<String>)
    ensures
        r is Some <==> role_lookup(table@, id) is Some,
        r matches Some(nm) ==> role_lookup(table@, id) == Some(nm@),
{
    let mut i: usize = 0;
    proof {
        assert(table@.skip(0) =~= table@);
    }
    while i < table.len()
        invariant
            i <= table@.len(),
            role_lookup(table@, id) == role_lookup(table@.skip(i as int), id),
        decreases table@.len() - i,
    {
        if table[i].id == id {
            proof {
                assert(table@.skip(i as int)[0] == table@[i as int]);
            }
            return Some(table[i].display_name.clone());
        }
        proof {
            assert(table@.skip(i as int).drop_first() =~= table@.skip(i + 1));
        }
        i = i + 1;
    }
    proof {
        assert(table@.skip(table@.len() as int).len() == 0);
    }
    None
}

/// Convert an inbound message into portable text with an attribution prefix.
///
/// Fails with `EmptyContent` exactly when the raw text is empty or
/// whitespace-only; otherwise the result is exactly the substituted, trimmed
/// body behind the attribution prefix.
pub fn transform(msg: &InboundMessage, roles: &Vec<RoleEntry>) -> (r: Result<
    String,
    TransformError,
>)
    ensures
        r is Err <==> trim_spec(msg.raw_text@).len() == 0,
        r is Err ==> r->Err_0 == TransformError::EmptyContent,
        r is Ok ==> r->Ok_0@ == transform_result_spec(*msg, roles@),
{
    let raw = str_to_chars(msg.raw_text.as_str());
    let trimmed = trim_chars(&raw);
    if trimmed.len() == 0 {
        return Err(TransformError::EmptyContent);
    }
    let ghost orig = msg.raw_text@;
    let mut content = raw;

    let mut k: usize = 0;
    while k < msg.user_mentions.len()
        invariant
            k <= msg.user_mentions@.len(),
            subst_users(orig, msg.user_mentions@, 0) == subst_users(
                content@,
                msg.user_mentions@,
                k as int,
            ),
        decreases msg.user_mentions@.len() - k,
    {
        let tok = build_user_token(msg.user_mentions[k].id);
        let mut rep: Vec<char> = Vec::new();
        rep.push('@');
        let name = str_to_chars(msg.user_mentions[k].display_name.as_str());
        append_chars(&mut rep, &name);
        proof {
            lemma_dec_digits_are_digits(msg.user_mentions@[k as int].id as nat);
            assert(rep@ =~= mention_rep('@', msg.user_mentions@[k as int].display_name@));
        }
        content = replace_all_chars(&content, &tok, &rep);
        k = k + 1;
    }
    let ghost s1 = subst_users(orig, msg.user_mentions@, 0);
    proof {
        assert(content@ == s1);
    }

    let mut k2: usize = 0;
    while k2 < msg.channel_mentions.len()
        invariant
            k2 <= msg.channel_mentions@.len(),
            subst_channels(s1, msg.channel_mentions@, 0) == subst_channels(
                content@,
                msg.channel_mentions@,
                k2 as int,
            ),
        decreases msg.channel_mentions@.len() - k2,
    {
        let tok = build_channel_token(msg.channel_mentions[k2].id);
        let mut rep: Vec<char> = Vec::new();
        rep.push('#');
        let name = str_to_chars(msg.channel_mentions[k2].display_name.as_str());
        append_chars(&mut rep, &name);
        proof {
            lemma_dec_digits_are_digits(msg.channel_mentions@[k2 as int].id as nat);
            assert(rep@ =~= mention_rep('#', msg.channel_mentions@[k2 as int].display_name@));
        }
        content = replace_all_chars(&content, &tok, &rep);
        k2 = k2 + 1;
    }
    let ghost s2 = subst_channels(s1, msg.channel_mentions@, 0);
    proof {
        assert(content@ == s2);
    }

    let mut k3: usize = 0;
    while k3 < msg.role_mentions.len()
        invariant
            k3 <= msg.role_mentions@.len(),
            subst_roles(s2, msg.role_mentions@, roles@, 0) == subst_roles(
                content@,
                msg.role_mentions@,
                roles@,
                k3 as int,
            ),
        decreases msg.role_mentions@.len() - k3,
    {
        let rid = msg.role_mentions[k3];
        match find_role(roles, rid) {
            Some(nm) => {
                let tok = build_role_token(rid);
                let mut rep: Vec<char> = Vec::new();
                rep.push('@');
                let name = str_to_chars(nm.as_str());
                append_chars(&mut rep, &name);
                proof {
                    lemma_dec_digits_are_digits(rid as nat);
                    assert(rep@ =~= mention_rep('@', nm@));
                }
                content = replace_all_chars(&content, &tok, &rep);
            },
            None => {},
        }
        k3 = k3 + 1;
    }
    let ghost s3 = subst_roles(s2, msg.role_mentions@, roles@, 0);
    proof {
        assert(content@ == s3);
    }

    let body = trim_chars(&content);
    let mut out = str_to_chars(msg.author.display_name.as_str());
    let lit = str_to_chars(" (Discord):");
    append_chars(&mut out, &lit);
    proof {
        assert(out@ == prefix_spec(*msg));
    }
    if body.len() > 0 {
        out.push(' ');
        proof {
            assert(out@ =~= prefix_spec(*msg) + seq![' ']);
        }
        append_chars(&mut out, &body);
    }
    proof {
        assert(out@ == transform_result_spec(*msg, roles@));
    }
    Ok(chars_to_string(&out))
}

} // verus!

verus! {

/// A display name that cannot take part in forming a fresh mention token:
/// it holds neither token delimiter, and at least one of its characters is
/// not a decimal digit.
pub open spec fn safe_name(name: Seq<char>) -> bool {
    &&& !name.contains('<')
    &&& !name.contains('>')
    &&& exists|q: int| 0 <= q < name.len() && !is_digit(#[trigger] name[q])
}

/// Every display name the substitutions use is safe, and the author's name
/// holds no token opener.
pub open spec fn mentions_safe(msg: InboundMessage, roles: Seq<RoleEntry>) -> bool {
    &&& forall|j: int|
        0 <= j < msg.user_mentions@.len() ==> safe_name(
            #[trigger] msg.user_mentions@[j].display_name@,
        )
    &&& forall|j: int|
        0 <= j < msg.channel_mentions@.len() ==> safe_name(
            #[trigger] msg.channel_mentions@[j].display_name@,
        )
    &&& forall|j: int| 0 <= j < roles.len() ==> safe_name(#[trigger] roles[j].display_name@)
    &&& !msg.author.display_name@.contains('<')
}

/// A safe replacement text can neither hold a token's delimiters nor occur
/// inside a token's interior.
proof fn lemma_rep_safe(name: Seq<char>, mark: char, sig: char, id: u64)
    requires
        safe_name(name),
        mark == '@' || mark == '#',
        sig == '@' || sig == '#',
    ensures
        mention_rep(mark, name).len() >= 1,
        sig_token(sig, id).len() >= 4,
        sig_token(sig, id)[0] == '<',
        sig_token(sig, id)[sig_token(sig, id).len() - 1] == '>',
        !mention_rep(mark, name).contains('<'),
        !mention_rep(mark, name).contains('>'),
        !has_match(
            sig_token(sig, id).subrange(1, sig_token(sig, id).len() as int),
            mention_rep(mark, name),
        ),
{
    let rep = mention_rep(mark, name);
    let tok = sig_token(sig, id);
    let dd = dec_digits(id as nat);
    lemma_dec_digits_are_digits(id as nat);
    assert(tok.len() == dd.len() + 3);
    assert(tok[0] == '<');
    assert(tok[1] == sig);
    assert(forall|i: int| 2 <= i < tok.len() - 1 ==> #[trigger] tok[i] == dd[i - 2]);
    assert(tok[tok.len() - 1] == '>');
    assert(!rep.contains('<')) by {
        if rep.contains('<') {
            let i = choose|i: int| 0 <= i < rep.len() && rep[i] == '<';
            if i == 0 {
                assert(rep[0] == mark);
            } else {
                assert(name[i - 1] == '<');
                assert(name.contains('<'));
            }
        }
    }
    assert(!rep.contains('>')) by {
        if rep.contains('>') {
            let i = choose|i: int| 0 <= i < rep.len() && rep[i] == '>';
            if i == 0 {
                assert(rep[0] == mark);
            } else {
                assert(name[i - 1] == '>');
                assert(name.contains('>'));
            }
        }
    }
    let interior = tok.subrange(1, tok.len() as int);
    assert(interior.len() == dd.len() + 2);
    assert(interior[0] == sig);
    assert(forall|i: int| 1 <= i < interior.len() - 1 ==> is_digit(#[trigger] interior[i])) by {
        assert(forall|i: int| 1 <= i < interior.len() - 1 ==> #[trigger] interior[i] == dd[i - 1]);
    }
    assert(interior[interior.len() - 1] == '>');
    if has_match(interior, rep) {
        let p = choose|p: int| match_at(interior, rep, p);
        assert(forall|q: int| 0 <= q < rep.len() ==> #[trigger] rep[q] == interior[p + q]) by {
            assert(forall|q: int|
                0 <= q < rep.len() ==> #[trigger] interior.subrange(p, p + rep.len() as int)[q]
                    == interior[p + q]);
        }
        if p == 0 {
            let q = choose|q: int| 0 <= q < name.len() && !is_digit(name[q]);
            assert(rep[q + 1] == name[q]);
            assert(rep[q + 1] == interior[q + 1]);
            if q + 1 < interior.len() - 1 {
                assert(is_digit(interior[q + 1]));
                assert(false);
            } else {
                assert(q + 1 == interior.len() - 1);
                assert(name[q] == '>');
                assert(name.contains('>'));
                assert(false);
            }
        } else {
            assert(rep[0] == mark);
            assert(rep[0] == interior[p]);
            if p < interior.len() - 1 {
                assert(is_digit(interior[p]));
                assert(!is_digit(mark));
                assert(false);
            } else {
                assert(interior[p] == '>');
                assert(false);
            }
        }
        assert(false);
    }
}

/// After the user-mention pass from index `k` on, the token `sig_token(sig,
/// id)` does not occur — provided it either is one of the remaining user
/// tokens, or was already absent.
proof fn lemma_subst_users_no_tok(s: Seq<char>, ms: Seq<UserMention>, k: int, sig: char, id: u64)
    requires
        0 <= k <= ms.len(),
        sig == '@' || sig == '#',
        forall|j: int| 0 <= j < ms.len() ==> safe_name(#[trigger] ms[j].display_name@),
        (exists|j: int|
            k <= j < ms.len() && user_token(#[trigger] ms[j].id) == sig_token(sig, id))
            || !has_match(s, sig_token(sig, id)),
    ensures
        !has_match(subst_users(s, ms, k), sig_token(sig, id)),
    decreases ms.len() - k,
{
    let tok = sig_token(sig, id);
    if k == ms.len() {
        if exists|j: int| k <= j < ms.len() && user_token(#[trigger] ms[j].id) == tok {
            let j0 = choose|j: int| k <= j < ms.len() && user_token(#[trigger] ms[j].id) == tok;
            assert(false);
        }
    } else {
        let pat = user_token(ms[k].id);
        let rep = mention_rep('@', ms[k].display_name@);
        let s2 = replace_all(s, pat, rep);
        lemma_rep_safe(ms[k].display_name@, '@', sig, id);
        lemma_dec_digits_are_digits(ms[k].id as nat);
        if pat == tok {
            lemma_replace_no_match(s, pat, rep, tok);
            lemma_subst_users_no_tok(s2, ms, k + 1, sig, id);
        } else if exists|j: int| k <= j < ms.len() && user_token(#[trigger] ms[j].id) == tok {
            let j0 = choose|j: int| k <= j < ms.len() && user_token(#[trigger] ms[j].id) == tok;
            assert(j0 != k);
            assert(k + 1 <= j0 < ms.len() && user_token(ms[j0].id) == tok);
            lemma_subst_users_no_tok(s2, ms, k + 1, sig, id);
        } else {
            lemma_replace_no_match(s, pat, rep, tok);
            lemma_subst_users_no_tok(s2, ms, k + 1, sig, id);
        }
    }
}

/// The channel-mention analogue of `lemma_subst_users_no_tok`.
proof fn lemma_subst_channels_no_tok(
    s: Seq<char>,
    ms: Seq<ChannelMention>,
    k: int,
    sig: char,
    id: u64,
)
    requires
        0 <= k <= ms.len(),
        sig == '@' || sig == '#',
        forall|j: int| 0 <= j < ms.len() ==> safe_name(#[trigger] ms[j].display_name@),
        (exists|j: int|
            k <= j < ms.len() && channel_token(#[trigger] ms[j].id) == sig_token(sig, id))
            || !has_match(s, sig_token(sig, id)),
    ensures
        !has_match(subst_channels(s, ms, k), sig_token(sig, id)),
    decreases ms.len() - k,
{
    let tok = sig_token(sig, id);
    if k == ms.len() {
        if exists|j: int| k <= j < ms.len() && channel_token(#[trigger] ms[j].id) == tok {
            let j0 = choose|j: int| k <= j < ms.len() && channel_token(#[trigger] ms[j].id) == tok;
            assert(false);
        }
    } else {
        let pat = channel_token(ms[k].id);
        let rep = mention_rep('#', ms[k].display_name@);
        let s2 = replace_all(s, pat, rep);
        lemma_rep_safe(ms[k].display_name@, '#', sig, id);
        lemma_dec_digits_are_digits(ms[k].id as nat);
        if pat == tok {
            lemma_replace_no_match(s, pat, rep, tok);
            lemma_subst_channels_no_tok(s2, ms, k + 1, sig, id);
        } else if exists|j: int| k <= j < ms.len() && channel_token(#[trigger] ms[j].id) == tok {
            let j0 = choose|j: int| k <= j < ms.len() && channel_token(#[trigger] ms[j].id) == tok;
            assert(j0 != k);
            assert(k + 1 <= j0 < ms.len() && channel_token(ms[j0].id) == tok);
            lemma_subst_channels_no_tok(s2, ms, k + 1, sig, id);
        } else {
            lemma_replace_no_match(s, pat, rep, tok);
            lemma_subst_channels_no_tok(s2, ms, k + 1, sig, id);
        }
    }
}

/// Whatever name the lookup resolves comes from the table, so it is safe.
proof fn lemma_role_lookup_safe(table: Seq<RoleEntry>, rid: u64)
    requires
        forall|j: int| 0 <= j < table.len() ==> safe_name(#[trigger] table[j].display_name@),
    ensures
        role_lookup(table, rid) matches Some(nm) ==> safe_name(nm),
    decreases table.len(),
{
    if table.len() > 0 && table[0].id != rid {
        let t = table.drop_first();
        assert(forall|j: int| 0 <= j < t.len() ==> safe_name(#[trigger] t[j].display_name@)) by {
            assert(forall|j: int| 0 <= j < t.len() ==> #[trigger] t[j] == table[j + 1]);
        }
        lemma_role_lookup_safe(t, rid);
    }
}

/// The role pass preserves the absence of a user or channel token.
proof fn lemma_subst_roles_no_tok(
    s: Seq<char>,
    ids: Seq<u64>,
    table: Seq<RoleEntry>,
    k: int,
    sig: char,
    id: u64,
)
    requires
        0 <= k <= ids.len(),
        sig == '@' || sig == '#',
        forall|j: int| 0 <= j < table.len() ==> safe_name(#[trigger] table[j].display_name@),
        !has_match(s, sig_token(sig, id)),
    ensures
        !has_match(subst_roles(s, ids, table, k), sig_token(sig, id)),
    decreases ids.len() - k,
{
    if 0 <= k < ids.len() {
        let rid = ids[k];
        match role_lookup(table, rid) {
            Some(nm) => {
                lemma_role_lookup_safe(table, rid);
                lemma_rep_safe(nm, '@', sig, id);
                lemma_dec_digits_are_digits(rid as nat);
                let s2 = replace_all(s, role_token(rid), mention_rep('@', nm));
                lemma_replace_no_match(s, role_token(rid), mention_rep('@', nm), sig_token(
                    sig,
                    id,
                ));
                lemma_subst_roles_no_tok(s2, ids, table, k + 1, sig, id);
            },
            None => {
                lemma_subst_roles_no_tok(s, ids, table, k + 1, sig, id);
            },
        }
    }
}

proof fn lemma_trim_start_no_match(s: Seq<char>, pat: Seq<char>)
    requires
        !has_match(s, pat),
    ensures
        !has_match(trim_start_spec(s), pat),
    decreases s.len(),
{
    if s.len() > 0 && is_space(s[0]) {
        assert(s.drop_first() =~= s.subrange(1, s.len() as int));
        lemma_no_match_subrange(s, 1, s.len() as int, pat);
        lemma_trim_start_no_match(s.drop_first(), pat);
    }
}

proof fn lemma_trim_end_no_match(s: Seq<char>, pat: Seq<char>)
    requires
        !has_match(s, pat),
    ensures
        !has_match(trim_end_spec(s), pat),
    decreases s.len(),
{
    if s.len() > 0 && is_space(s.last()) {
        assert(s.drop_last() =~= s.subrange(0, s.len() - 1));
        lemma_no_match_subrange(s, 0, s.len() - 1, pat);
        lemma_trim_end_no_match(s.drop_last(), pat);
    }
}

/// Trimming never introduces a match.
pub proof fn lemma_trim_no_match(s: Seq<char>, pat: Seq<char>)
    requires
        !has_match(s, pat),
    ensures
        !has_match(trim_spec(s), pat),
{
    lemma_trim_start_no_match(s, pat);
    lemma_trim_end_no_match(trim_start_spec(s), pat);
}

proof fn lemma_prefix_no_opener(msg: InboundMessage)
    requires
        !msg.author.display_name@.contains('<'),
    ensures
        !prefix_spec(msg).contains('<'),
        !(prefix_spec(msg) + seq![' ']).contains('<'),
{
    let lit = " (Discord):"@;
    assert(lit =~= seq![' ', '(', 'D', 'i', 's', 'c', 'o', 'r', 'd', ')', ':']) by {
        reveal_strlit(" (Discord):");
    }
    let prefix = prefix_spec(msg);
    assert(!prefix.contains('<')) by {
        if prefix.contains('<') {
            let i = choose|i: int| 0 <= i < prefix.len() && prefix[i] == '<';
            if i < msg.author.display_name@.len() {
                assert(msg.author.display_name@.contains('<'));
            } else {
                assert(lit[i - msg.author.display_name@.len()] == '<');
            }
        }
    }
    if (prefix + seq![' ']).contains('<') {
        let i = choose|i: int| 0 <= i < (prefix + seq![' ']).len() && (prefix + seq![' '])[i]
            == '<';
        if i < prefix.len() {
            assert(prefix.contains('<'));
        }
    }
}

/// Substitution is exhaustive for user mentions: for every user mention of
/// the input, the transformed output holds no occurrence of that mention's
/// original token — provided every display name in play is safe and the
/// author's name holds no token opener. The restriction is genuine: an
/// all-digit name can rebuild a token (replacing `<@1>` by `@1` turns
/// `<<@1>>` into `<@1>`), and a name holding a delimiter can do the same.
pub proof fn lemma_transform_strips_user_tokens(
    msg: InboundMessage,
    roles: Seq<RoleEntry>,
    j: int,
)
    requires
        mentions_safe(msg, roles),
        0 <= j < msg.user_mentions@.len(),
    ensures
        !has_match(transform_result_spec(msg, roles), user_token(msg.user_mentions@[j].id)),
{
    let id = msg.user_mentions@[j].id;
    let tok = sig_token('@', id);
    lemma_dec_digits_are_digits(id as nat);
    assert(tok[0] == '<');
    let s1 = subst_users(msg.raw_text@, msg.user_mentions@, 0);
    assert(user_token(msg.user_mentions@[j].id) == tok);
    lemma_subst_users_no_tok(msg.raw_text@, msg.user_mentions@, 0, '@', id);
    let s2 = subst_channels(s1, msg.channel_mentions@, 0);
    lemma_subst_channels_no_tok(s1, msg.channel_mentions@, 0, '@', id);
    let s3 = subst_roles(s2, msg.role_mentions@, roles, 0);
    lemma_subst_roles_no_tok(s2, msg.role_mentions@, roles, 0, '@', id);
    lemma_trim_no_match(s3, tok);
    let body = body_spec(msg, roles);
    let prefix = prefix_spec(msg);
    lemma_prefix_no_opener(msg);
    if body.len() == 0 {
        lemma_no_head_no_match(prefix, tok);
    } else {
        lemma_no_match_concat(prefix + seq![' '], body, tok);
    }
}

/// The channel-mention analogue of `lemma_transform_strips_user_tokens`.
pub proof fn lemma_transform_strips_channel_tokens(
    msg: InboundMessage,
    roles: Seq<RoleEntry>,
    j: int,
)
    requires
        mentions_safe(msg, roles),
        0 <= j < msg.channel_mentions@.len(),
    ensures
        !has_match(transform_result_spec(msg, roles), channel_token(msg.channel_mentions@[j].id)),
{
    let id = msg.channel_mentions@[j].id;
    let tok = sig_token('#', id);
    lemma_dec_digits_are_digits(id as nat);
    assert(tok[0] == '<');
    let s1 = subst_users(msg.raw_text@, msg.user_mentions@, 0);
    let s2 = subst_channels(s1, msg.channel_mentions@, 0);
    assert(channel_token(msg.channel_mentions@[j].id) == tok);
    lemma_subst_channels_no_tok(s1, msg.channel_mentions@, 0, '#', id);
    let s3 = subst_roles(s2, msg.role_mentions@, roles, 0);
    lemma_subst_roles_no_tok(s2, msg.role_mentions@, roles, 0, '#', id);
    lemma_trim_no_match(s3, tok);
    let body = body_spec(msg, roles);
    let prefix = prefix_spec(msg);
    lemma_prefix_no_opener(msg);
    if body.len() == 0 {
        lemma_no_head_no_match(prefix, tok);
    } else {
        lemma_no_match_concat(prefix + seq![' '], body, tok);
    }
}

} // verus!
