//! The wire codec of the remote messaging API: the fixed JSON shapes of its
//! requests and responses, as encoders and parsers over the data model, with
//! the proof that decoding inverts encoding.

use vstd::prelude::*;

use crate::json::{
    enc_bool, enc_i64, enc_string, enc_u64, expect_lit, lemma_parse_bool_rt, lemma_parse_i64_rt,
    lemma_parse_string_rt, lemma_parse_u64_rt, lemma_starts_with_concat, lemma_starts_with_index,
    parse_bool_at, parse_i64_at, parse_lit, parse_string_at, parse_u64_at, push_bool, push_i64,
    push_lit, push_string, push_u64, spec_parse_bool, spec_parse_i64, spec_parse_string,
    spec_parse_u64, starts_with,
};
use crate::telegram::{
    Chat, ChatModel, Message, MessageModel, ResponseContainer, ResponseModel, TelegramError,
    TelegramRequest, Update, UpdateModel,
};

verus! {

// ---------------------------------------------------------------------------
// Specification encoders
// ---------------------------------------------------------------------------
/// The encoded form of a chat object.
pub open spec fn enc_chat(c: ChatModel) -> Seq<char> {
    "{\"id\":"@ + enc_u64(c.id) + ",\"first_name\":"@ + enc_string(c.first_name)
        + ",\"last_name\":"@ + enc_string(c.last_name) + ",\"type\":"@ + enc_string(c.chat_type)
        + "}"@
}

/// The encoded form of a message object.
pub open spec fn enc_message(m: MessageModel) -> Seq<char> {
    "{\"text\":"@ + enc_string(m.text) + ",\"chat\":"@ + enc_chat(m.chat) + "}"@
}

/// The encoded form of one update object.
pub open spec fn enc_update(u: UpdateModel) -> Seq<char> {
    "{\"update_id\":"@ + enc_i64(u.update_id) + ",\"message\":"@ + enc_message(u.message) + "}"@
}

/// The encoded form of the updates after the first: each preceded by a comma.
pub open spec fn enc_update_more(us: Seq<UpdateModel>) -> Seq<char>
    decreases us.len(),
{
    if us.len() == 0 {
        Seq::empty()
    } else {
        seq![','] + enc_update(us[0]) + enc_update_more(us.drop_first())
    }
}

/// The encoded form of a whole update array, brackets excluded.
pub open spec fn enc_update_list(us: Seq<UpdateModel>) -> Seq<char> {
    if us.len() == 0 {
        Seq::empty()
    } else {
        enc_update(us[0]) + enc_update_more(us.drop_first())
    }
}

/// The encoded form of a `getUpdates` response.
pub open spec fn enc_updates_response(r: ResponseModel<Seq<UpdateModel>>) -> Seq<char> {
    "{\"ok\":"@ + enc_bool(r.ok) + ",\"result\":["@ + enc_update_list(r.result) + "]"@ + "}"@
}

/// The encoded form of a `sendMessage` response.
pub open spec fn enc_message_response(r: ResponseModel<MessageModel>) -> Seq<char> {
    "{\"ok\":"@ + enc_bool(r.ok) + ",\"result\":"@ + enc_message(r.result) + "}"@
}

/// The encoded form of an optional integer field.
pub open spec fn enc_opt_i64(v: Option<i64>) -> Seq<char> {
    match v {
        Some(n) => enc_i64(n),
        None => "null"@,
    }
}

/// The body a request is sent with; the identity query has none.
pub open spec fn enc_request_body(r: TelegramRequest) -> Option<Seq<char>> {
    match r {
        TelegramRequest::Me => None,
        TelegramRequest::Updates { offset, limit, timeout } => Some(
            "{\"offset\":"@ + enc_opt_i64(offset) + ",\"limit\":"@ + enc_opt_i64(limit)
                + ",\"timeout\":"@ + enc_u64(timeout as u64) + "}"@,
        ),
        TelegramRequest::SendMessage { chat_id, text } => Some(
            "{\"chat_id\":"@ + enc_u64(chat_id) + ",\"text\":"@ + enc_string(text@) + "}"@,
        ),
    }
}

/// The path segment that selects a request's method.
pub open spec fn spec_method_name(r: TelegramRequest) -> Seq<char> {
    match r {
        TelegramRequest::Me => "getMe"@,
        TelegramRequest::Updates { .. } => "getUpdates"@,
        TelegramRequest::SendMessage { .. } => "sendMessage"@,
    }
}

// ---------------------------------------------------------------------------
// Specification parsers
// ---------------------------------------------------------------------------
/// Parses a chat object.
pub open spec fn parse_chat(s: Seq<char>, i: int) -> Option<(ChatModel, int)> {
    match parse_lit(s, i, "{\"id\":"@) {
        Some(i1) => match spec_parse_u64(s, i1) {
            Some((id, i2)) => match parse_lit(s, i2, ",\"first_name\":"@) {
                Some(i3) => match spec_parse_string(s, i3) {
                    Some((first_name, i4)) => match parse_lit(s, i4, ",\"last_name\":"@) {
                        Some(i5) => match spec_parse_string(s, i5) {
                            Some((last_name, i6)) => match parse_lit(s, i6, ",\"type\":"@) {
                                Some(i7) => match spec_parse_string(s, i7) {
                                    Some((chat_type, i8)) => match parse_lit(s, i8, "}"@) {
                                        Some(i9) => Some(
                                            (
                                                ChatModel {
                                                    id,
                                                    first_name,
                                                    last_name,
                                                    chat_type,
                                                },
                                                i9,
                                            ),
                                        ),
                                        None => None,
                                    },
                                    None => None,
                                },
                                None => None,
                            },
                            None => None,
                        },
                        None => None,
                    },
                    None => None,
                },
                None => None,
            },
            None => None,
        },
        None => None,
    }
}

/// Parses a message object.
pub open spec fn parse_message(s: Seq<char>, i: int) -> Option<(MessageModel, int)> {
    match parse_lit(s, i, "{\"text\":"@) {
        Some(i1) => match spec_parse_string(s, i1) {
            Some((text, i2)) => match parse_lit(s, i2, ",\"chat\":"@) {
                Some(i3) => match parse_chat(s, i3) {
                    Some((chat, i4)) => match parse_lit(s, i4, "}"@) {
                        Some(i5) => Some((MessageModel { text, chat }, i5)),
                        None => None,
                    },
                    None => None,
                },
                None => None,
            },
            None => None,
        },
        None => None,
    }
}

/// Parses one update object.
pub open spec fn parse_update(s: Seq<char>, i: int) -> Option<(UpdateModel, int)> {
    match parse_lit(s, i, "{\"update_id\":"@) {
        Some(i1) => match spec_parse_i64(s, i1) {
            Some((update_id, i2)) => match parse_lit(s, i2, ",\"message\":"@) {
                Some(i3) => match parse_message(s, i3) {
                    Some((message, i4)) => match parse_lit(s, i4, "}"@) {
                        Some(i5) => Some((UpdateModel { update_id, message }, i5)),
                        None => None,
                    },
                    None => None,
                },
                None => None,
            },
            None => None,
        },
        None => None,
    }
}

/// Parses the updates after the first: a comma and an update each, up to and
/// including the closing bracket.
pub open spec fn parse_update_more(s: Seq<char>, i: int) -> Option<(Seq<UpdateModel>, int)>
    decreases s.len() - i,
{
    if i < 0 || i >= s.len() {
        None
    } else if s[i] == ']' {
        Some((Seq::empty(), i + 1))
    } else if s[i] == ',' {
        match parse_update(s, i + 1) {
            Some((u, j)) => if i + 1 < j <= s.len() {
                match parse_update_more(s, j) {
                    Some((us, k)) => Some((seq![u] + us, k)),
                    None => None,
                }
            } else {
                None
            },
            None => None,
        }
    } else {
        None
    }
}

/// Parses a whole update array after its opening bracket, up to and
/// including the closing bracket.
pub open spec fn parse_update_seq(s: Seq<char>, i: int) -> Option<(Seq<UpdateModel>, int)> {
    if i < 0 || i >= s.len() {
        None
    } else if s[i] == ']' {
        Some((Seq::empty(), i + 1))
    } else {
        match parse_update(s, i) {
            Some((u, j)) => if i < j <= s.len() {
                match parse_update_more(s, j) {
                    Some((us, k)) => Some((seq![u] + us, k)),
                    None => None,
                }
            } else {
                None
            },
            None => None,
        }
    }
}

/// Parses a `getUpdates` response.
pub open spec fn parse_updates_response(s: Seq<char>, i: int) -> Option<
    (ResponseModel<Seq<UpdateModel>>, int),
> {
    match parse_lit(s, i, "{\"ok\":"@) {
        Some(i1) => match spec_parse_bool(s, i1) {
            Some((ok, i2)) => match parse_lit(s, i2, ",\"result\":["@) {
                Some(i3) => match parse_update_seq(s, i3) {
                    Some((result, i4)) => match parse_lit(s, i4, "}"@) {
                        Some(i5) => Some((ResponseModel { ok, result }, i5)),
                        None => None,
                    },
                    None => None,
                },
                None => None,
            },
            None => None,
        },
        None => None,
    }
}

/// Parses a `sendMessage` response.
pub open spec fn parse_message_response(s: Seq<char>, i: int) -> Option<
    (ResponseModel<MessageModel>, int),
> {
    match parse_lit(s, i, "{\"ok\":"@) {
        Some(i1) => match spec_parse_bool(s, i1) {
            Some((ok, i2)) => match parse_lit(s, i2, ",\"result\":"@) {
                Some(i3) => match parse_message(s, i3) {
                    Some((result, i4)) => match parse_lit(s, i4, "}"@) {
                        Some(i5) => Some((ResponseModel { ok, result }, i5)),
                        None => None,
                    },
                    None => None,
                },
                None => None,
            },
            None => None,
        },
        None => None,
    }
}

// ---------------------------------------------------------------------------
// Round trip: parsing inverts encoding
// ---------------------------------------------------------------------------
/// Parsing inverts encoding for chat objects.
pub proof fn lemma_parse_chat_rt(c: ChatModel, s: Seq<char>, i: int)
    requires
        starts_with(s, i, enc_chat(c)),
    ensures
        parse_chat(s, i) == Some((c, i + enc_chat(c).len())),
{
    let a1 = "{\"id\":"@;
    let a2 = enc_u64(c.id);
    let a3 = ",\"first_name\":"@;
    let a4 = enc_string(c.first_name);
    let a5 = ",\"last_name\":"@;
    let a6 = enc_string(c.last_name);
    let a7 = ",\"type\":"@;
    let a8 = enc_string(c.chat_type);
    let a9 = "}"@;
    assert(enc_chat(c) =~= a1 + (a2 + (a3 + (a4 + (a5 + (a6 + (a7 + (a8 + a9))))))));
    lemma_starts_with_concat(s, i, a1, a2 + (a3 + (a4 + (a5 + (a6 + (a7 + (a8 + a9)))))));
    let i1 = i + a1.len();
    lemma_starts_with_concat(s, i1, a2, a3 + (a4 + (a5 + (a6 + (a7 + (a8 + a9))))));
    let i2 = i1 + a2.len();
    lemma_starts_with_concat(s, i2, a3, a4 + (a5 + (a6 + (a7 + (a8 + a9)))));
    let i3 = i2 + a3.len();
    lemma_starts_with_concat(s, i3, a4, a5 + (a6 + (a7 + (a8 + a9))));
    let i4 = i3 + a4.len();
    lemma_starts_with_concat(s, i4, a5, a6 + (a7 + (a8 + a9)));
    let i5 = i4 + a5.len();
    lemma_starts_with_concat(s, i5, a6, a7 + (a8 + a9));
    let i6 = i5 + a6.len();
    lemma_starts_with_concat(s, i6, a7, a8 + a9);
    let i7 = i6 + a7.len();
    lemma_starts_with_concat(s, i7, a8, a9);
    let i8 = i7 + a8.len();
    reveal_strlit(",\"first_name\":");
    lemma_starts_with_index(s, i2, a3, 0);
    assert(s[i2] == ',');
    lemma_parse_u64_rt(c.id, s, i1);
    lemma_parse_string_rt(c.first_name, s, i3);
    lemma_parse_string_rt(c.last_name, s, i5);
    lemma_parse_string_rt(c.chat_type, s, i7);
}

/// Parsing inverts encoding for message objects.
pub proof fn lemma_parse_message_rt(m: MessageModel, s: Seq<char>, i: int)
    requires
        starts_with(s, i, enc_message(m)),
    ensures
        parse_message(s, i) == Some((m, i + enc_message(m).len())),
{
    let a1 = "{\"text\":"@;
    let a2 = enc_string(m.text);
    let a3 = ",\"chat\":"@;
    let a4 = enc_chat(m.chat);
    let a5 = "}"@;
    assert(enc_message(m) =~= a1 + (a2 + (a3 + (a4 + a5))));
    lemma_starts_with_concat(s, i, a1, a2 + (a3 + (a4 + a5)));
    let i1 = i + a1.len();
    lemma_starts_with_concat(s, i1, a2, a3 + (a4 + a5));
    let i2 = i1 + a2.len();
    lemma_starts_with_concat(s, i2, a3, a4 + a5);
    let i3 = i2 + a3.len();
    lemma_starts_with_concat(s, i3, a4, a5);
    let i4 = i3 + a4.len();
    lemma_parse_string_rt(m.text, s, i1);
    lemma_parse_chat_rt(m.chat, s, i3);
}

/// Parsing inverts encoding for update objects.
pub proof fn lemma_parse_update_rt(u: UpdateModel, s: Seq<char>, i: int)
    requires
        starts_with(s, i, enc_update(u)),
    ensures
        parse_update(s, i) == Some((u, i + enc_update(u).len())),
        enc_update(u).len() >= 1,
{
    let a1 = "{\"update_id\":"@;
    let a2 = enc_i64(u.update_id);
    let a3 = ",\"message\":"@;
    let a4 = enc_message(u.message);
    let a5 = "}"@;
    assert(enc_update(u) =~= a1 + (a2 + (a3 + (a4 + a5))));
    lemma_starts_with_concat(s, i, a1, a2 + (a3 + (a4 + a5)));
    let i1 = i + a1.len();
    lemma_starts_with_concat(s, i1, a2, a3 + (a4 + a5));
    let i2 = i1 + a2.len();
    lemma_starts_with_concat(s, i2, a3, a4 + a5);
    let i3 = i2 + a3.len();
    lemma_starts_with_concat(s, i3, a4, a5);
    let i4 = i3 + a4.len();
    reveal_strlit(",\"message\":");
    lemma_starts_with_index(s, i2, a3, 0);
    assert(s[i2] == ',');
    lemma_parse_i64_rt(u.update_id, s, i1);
    lemma_parse_message_rt(u.message, s, i3);
    reveal_strlit("{\"update_id\":");
}

/// Parsing inverts encoding for the tail of an update array.
#[verifier::rlimit(80)]
pub proof fn lemma_parse_update_more_rt(us: Seq<UpdateModel>, s: Seq<char>, i: int)
    requires
        starts_with(s, i, enc_update_more(us) + seq![']']),
    ensures
        parse_update_more(s, i) == Some((us, i + enc_update_more(us).len() + 1)),
    decreases us.len(),
{
    if us.len() == 0 {
        assert(enc_update_more(us) + seq![']'] =~= seq![']']);
        lemma_starts_with_index(s, i, seq![']'], 0);
        assert(s[i] == ']');
    } else {
        let head = us[0];
        let e = enc_update(head);
        assert(enc_update_more(us) + seq![']'] =~= seq![','] + (e + (enc_update_more(
            us.drop_first(),
        ) + seq![']'])));
        lemma_starts_with_concat(
            s,
            i,
            seq![','],
            e + (enc_update_more(us.drop_first()) + seq![']']),
        );
        lemma_starts_with_index(s, i, seq![','], 0);
        assert(s[i] == ',');
        assert(s[i] != ']');
        lemma_starts_with_concat(s, i + 1, e, enc_update_more(us.drop_first()) + seq![']']);
        lemma_parse_update_rt(head, s, i + 1);
        let j = i + 1 + e.len();
        lemma_parse_update_more_rt(us.drop_first(), s, j);
        assert(seq![head] + us.drop_first() =~= us);
    }
}

/// Parsing inverts encoding for whole update arrays.
#[verifier::rlimit(80)]
pub proof fn lemma_parse_update_seq_rt(us: Seq<UpdateModel>, s: Seq<char>, i: int)
    requires
        starts_with(s, i, enc_update_list(us) + seq![']']),
    ensures
        parse_update_seq(s, i) == Some((us, i + enc_update_list(us).len() + 1)),
{
    if us.len() == 0 {
        assert(enc_update_list(us) + seq![']'] =~= seq![']']);
        lemma_starts_with_index(s, i, seq![']'], 0);
        assert(s[i] == ']');
    } else {
        let head = us[0];
        let e = enc_update(head);
        assert(enc_update_list(us) + seq![']'] =~= e + (enc_update_more(us.drop_first())
            + seq![']']));
        lemma_starts_with_concat(s, i, e, enc_update_more(us.drop_first()) + seq![']']);
        lemma_parse_update_rt(head, s, i);
        reveal_strlit("{\"update_id\":");
        lemma_starts_with_index(s, i, e, 0);
        assert(s[i] == '{');
        assert(s[i] != ']');
        let j = i + e.len();
        lemma_parse_update_more_rt(us.drop_first(), s, j);
        assert(seq![head] + us.drop_first() =~= us);
    }
}

/// Parsing inverts encoding for whole `getUpdates` responses.
#[verifier::rlimit(80)]
pub proof fn lemma_parse_updates_response_rt(
    r: ResponseModel<Seq<UpdateModel>>,
    s: Seq<char>,
    i: int,
)
    requires
        starts_with(s, i, enc_updates_response(r)),
    ensures
        parse_updates_response(s, i) == Some((r, i + enc_updates_response(r).len())),
{
    let a1 = "{\"ok\":"@;
    let a2 = enc_bool(r.ok);
    let a3 = ",\"result\":["@;
    let a4 = enc_update_list(r.result) + seq![']'];
    let a5 = "}"@;
    assert("]"@ =~= seq![']']) by {
        reveal_strlit("]");
    }
    assert(enc_updates_response(r) =~= a1 + (a2 + (a3 + (a4 + a5))));
    lemma_starts_with_concat(s, i, a1, a2 + (a3 + (a4 + a5)));
    let i1 = i + a1.len();
    lemma_starts_with_concat(s, i1, a2, a3 + (a4 + a5));
    let i2 = i1 + a2.len();
    lemma_starts_with_concat(s, i2, a3, a4 + a5);
    let i3 = i2 + a3.len();
    lemma_starts_with_concat(s, i3, a4, a5);
    let i4 = i3 + a4.len();
    lemma_parse_bool_rt(r.ok, s, i1);
    lemma_parse_update_seq_rt(r.result, s, i3);
}

/// The round-trip law of the `getUpdates` codec: encoding a response and
/// decoding the result yields back exactly the same updates — same count,
/// same identifiers, same message texts and recipients, in the same order.
pub proof fn lemma_get_updates_round_trip(r: ResponseModel<Seq<UpdateModel>>)
    ensures
        parse_updates_response(enc_updates_response(r), 0) == Some(
            (r, enc_updates_response(r).len() as int),
        ),
{
    let s = enc_updates_response(r);
    assert(s.subrange(0, s.len() as int) =~= s);
    lemma_parse_updates_response_rt(r, s, 0);
}

// ---------------------------------------------------------------------------
// Executable encoders
// ---------------------------------------------------------------------------
/// Relies on String's FromIterator over characters: collecting yields the
/// string of exactly the given characters, in order.
#[verifier::external_body]
fn string_from_chars(v: &Vec<char>) -> (s: String)
    ensures
        s@ == v@,
{
    v.iter().collect()
}

/// Appends the encoding of a chat object.
pub fn push_chat(out: &mut Vec<char>, c: &Chat)
    ensures
        final(out)@ == old(out)@ + enc_chat(c@),
{
    push_lit(out, "{\"id\":");
    push_u64(out, c.id);
    push_lit(out, ",\"first_name\":");
    push_string(out, c.first_name.as_str());
    push_lit(out, ",\"last_name\":");
    push_string(out, c.last_name.as_str());
    push_lit(out, ",\"type\":");
    push_string(out, c.chat_type.as_str());
    push_lit(out, "}");
    proof {
        assert(out@ =~= old(out)@ + enc_chat(c@));
    }
}

/// Appends the encoding of a message object.
pub fn push_message(out: &mut Vec<char>, m: &Message)
    ensures
        final(out)@ == old(out)@ + enc_message(m@),
{
    push_lit(out, "{\"text\":");
    push_string(out, m.text.as_str());
    push_lit(out, ",\"chat\":");
    push_chat(out, &m.chat);
    push_lit(out, "}");
    proof {
        assert(out@ =~= old(out)@ + enc_message(m@));
    }
}

/// Appends the encoding of one update object.
pub fn push_update(out: &mut Vec<char>, u: &Update)
    ensures
        final(out)@ == old(out)@ + enc_update(u@),
{
    push_lit(out, "{\"update_id\":");
    push_i64(out, u.update_id);
    push_lit(out, ",\"message\":");
    push_message(out, &u.message);
    push_lit(out, "}");
    proof {
        assert(out@ =~= old(out)@ + enc_update(u@));
    }
}

/// Appending one update to a non-empty array appends a comma and its encoding.
proof fn lemma_enc_update_more_push(us: Seq<UpdateModel>, u: UpdateModel)
    ensures
        enc_update_more(us.push(u)) == enc_update_more(us) + (seq![','] + enc_update(u)),
    decreases us.len(),
{
    if us.len() == 0 {
        assert(us.push(u)[0] == u);
        assert(us.push(u).drop_first() =~= Seq::<UpdateModel>::empty());
        assert(enc_update_more(Seq::<UpdateModel>::empty()) =~= Seq::<char>::empty());
        assert(enc_update_more(us.push(u)) =~= enc_update_more(us) + (seq![','] + enc_update(u)));
    } else {
        assert(us.push(u).drop_first() =~= us.drop_first().push(u));
        lemma_enc_update_more_push(us.drop_first(), u);
        assert(us.push(u)[0] == us[0]);
        assert(enc_update_more(us.push(u)) =~= enc_update_more(us) + (seq![','] + enc_update(u)));
    }
}

/// Appends the encoding of a whole update array, brackets excluded.
pub fn push_update_list(out: &mut Vec<char>, us: &Vec<Update>)
    ensures
        final(out)@ == old(out)@ + enc_update_list(us.deep_view()),
{
    let ghost uds = us.deep_view();
    if us.len() == 0 {
        proof {
            assert(out@ =~= old(out)@ + enc_update_list(uds));
        }
        return ;
    }
    let ghost base = out@;
    push_update(out, &us[0]);
    let mut k: usize = 1;
    while k < us.len()
        invariant
            1 <= k <= uds.len(),
            uds == us.deep_view(),
            uds.len() == us@.len(),
            out@ == base + enc_update_list(uds.take(k as int)),
        decreases us@.len() - k,
    {
        proof {
            assert(uds.take(k + 1) =~= uds.take(k as int).push(uds[k as int]));
            lemma_enc_update_more_push(uds.take(k as int).drop_first(), uds[k as int]);
            assert(uds.take(k + 1).drop_first() =~= uds.take(k as int).drop_first().push(
                uds[k as int],
            ));
            assert(uds.take(k + 1)[0] == uds[0]);
            assert(uds.take(k as int)[0] == uds[0]);
        }
        push_lit(out, ",");
        push_update(out, &us[k]);
        proof {
            reveal_strlit(",");
            assert(","@ =~= seq![',']);
            assert(out@ =~= base + enc_update_list(uds.take(k + 1)));
        }
        k = k + 1;
    }
    proof {
        assert(uds.take(us@.len() as int) =~= uds);
    }
}

/// Encodes a whole `getUpdates` response.
pub fn encode_get_updates_response(r: &ResponseContainer<Vec<Update>>) -> (out: Vec<char>)
    ensures
        out@ == enc_updates_response(r@),
{
    let mut out: Vec<char> = Vec::new();
    push_lit(&mut out, "{\"ok\":");
    push_bool(&mut out, r.ok);
    push_lit(&mut out, ",\"result\":[");
    push_update_list(&mut out, &r.result);
    push_lit(&mut out, "]");
    push_lit(&mut out, "}");
    proof {
        assert(out@ =~= enc_updates_response(r@));
    }
    out
}

/// Encodes a whole `sendMessage` response.
pub fn encode_send_message_response(r: &ResponseContainer<Message>) -> (out: Vec<char>)
    ensures
        out@ == enc_message_response(r@),
{
    let mut out: Vec<char> = Vec::new();
    push_lit(&mut out, "{\"ok\":");
    push_bool(&mut out, r.ok);
    push_lit(&mut out, ",\"result\":");
    push_message(&mut out, &r.result);
    push_lit(&mut out, "}");
    proof {
        assert(out@ =~= enc_message_response(r@));
    }
    out
}

/// Appends an optional integer field.
pub fn push_opt_i64(out: &mut Vec<char>, v: &Option<i64>)
    ensures
        final(out)@ == old(out)@ + enc_opt_i64(*v),
{
    match v {
        Some(n) => push_i64(out, *n),
        None => push_lit(out, "null"),
    }
}

/// The body a request is sent with; the identity query sends none.
pub fn encode_request_body(req: &TelegramRequest) -> (out: Option<Vec<char>>)
    ensures
        match out {
            Some(v) => enc_request_body(*req) == Some(v@),
            None => enc_request_body(*req) is None,
        },
{
    match req {
        TelegramRequest::Me => None,
        TelegramRequest::Updates { offset, limit, timeout } => {
            let mut out: Vec<char> = Vec::new();
            push_lit(&mut out, "{\"offset\":");
            push_opt_i64(&mut out, offset);
            push_lit(&mut out, ",\"limit\":");
            push_opt_i64(&mut out, limit);
            push_lit(&mut out, ",\"timeout\":");
            push_u64(&mut out, *timeout as u64);
            push_lit(&mut out, "}");
            proof {
                assert(enc_request_body(*req) matches Some(e) && out@ =~= e);
            }
            Some(out)
        },
        TelegramRequest::SendMessage { chat_id, text } => {
            let mut out: Vec<char> = Vec::new();
            push_lit(&mut out, "{\"chat_id\":");
            push_u64(&mut out, *chat_id);
            push_lit(&mut out, ",\"text\":");
            push_string(&mut out, text.as_str());
            push_lit(&mut out, "}");
            proof {
                assert(enc_request_body(*req) matches Some(e) && out@ =~= e);
            }
            Some(out)
        },
    }
}

/// The path segment that selects a request's method.
pub fn method_name(req: &TelegramRequest) -> (m: &'static str)
    ensures
        m@ == spec_method_name(*req),
{
    match req {
        TelegramRequest::Me => "getMe",
        TelegramRequest::Updates { .. } => "getUpdates",
        TelegramRequest::SendMessage { .. } => "sendMessage",
    }
}

// ---------------------------------------------------------------------------
// Executable parsers
// ---------------------------------------------------------------------------
/// Parses a chat object.
pub fn parse_chat_at(s: &Vec<char>, i: usize) -> (r: Option<(Chat, usize)>)
    ensures
        match r {
            Some(p) => parse_chat(s@, i as int) == Some((p.0@, p.1 as int)),
            None => parse_chat(s@, i as int) is None,
        },
{
    let i1 = match expect_lit(s, i, "{\"id\":") {
        Some(j) => j,
        None => {
            return None;
        },
    };
    let (id, i2) = match parse_u64_at(s, i1) {
        Some(p) => p,
        None => {
            return None;
        },
    };
    let i3 = match expect_lit(s, i2, ",\"first_name\":") {
        Some(j) => j,
        None => {
            return None;
        },
    };
    let (first_chars, i4) = match parse_string_at(s, i3) {
        Some(p) => p,
        None => {
            return None;
        },
    };
    let i5 = match expect_lit(s, i4, ",\"last_name\":") {
        Some(j) => j,
        None => {
            return None;
        },
    };
    let (last_chars, i6) = match parse_string_at(s, i5) {
        Some(p) => p,
        None => {
            return None;
        },
    };
    let i7 = match expect_lit(s, i6, ",\"type\":") {
        Some(j) => j,
        None => {
            return None;
        },
    };
    let (type_chars, i8) = match parse_string_at(s, i7) {
        Some(p) => p,
        None => {
            return None;
        },
    };
    let i9 = match expect_lit(s, i8, "}") {
        Some(j) => j,
        None => {
            return None;
        },
    };
    let chat = Chat {
        id,
        first_name: string_from_chars(&first_chars),
        last_name: string_from_chars(&last_chars),
        chat_type: string_from_chars(&type_chars),
    };
    Some((chat, i9))
}

/// Parses a message object.
pub fn parse_message_at(s: &Vec<char>, i: usize) -> (r: Option<(Message, usize)>)
    ensures
        match r {
            Some(p) => parse_message(s@, i as int) == Some((p.0@, p.1 as int)),
            None => parse_message(s@, i as int) is None,
        },
{
    let i1 = match expect_lit(s, i, "{\"text\":") {
        Some(j) => j,
        None => {
            return None;
        },
    };
    let (text_chars, i2) = match parse_string_at(s, i1) {
        Some(p) => p,
        None => {
            return None;
        },
    };
    let i3 = match expect_lit(s, i2, ",\"chat\":") {
        Some(j) => j,
        None => {
            return None;
        },
    };
    let (chat, i4) = match parse_chat_at(s, i3) {
        Some(p) => p,
        None => {
            return None;
        },
    };
    let i5 = match expect_lit(s, i4, "}") {
        Some(j) => j,
        None => {
            return None;
        },
    };
    Some((Message { text: string_from_chars(&text_chars), chat }, i5))
}

/// Parses one update object.
pub fn parse_update_at(s: &Vec<char>, i: usize) -> (r: Option<(Update, usize)>)
    ensures
        match r {
            Some(p) => parse_update(s@, i as int) == Some((p.0@, p.1 as int)),
            None => parse_update(s@, i as int) is None,
        },
{
    let i1 = match expect_lit(s, i, "{\"update_id\":") {
        Some(j) => j,
        None => {
            return None;
        },
    };
    let (update_id, i2) = match parse_i64_at(s, i1) {
        Some(p) => p,
        None => {
            return None;
        },
    };
    let i3 = match expect_lit(s, i2, ",\"message\":") {
        Some(j) => j,
        None => {
            return None;
        },
    };
    let (message, i4) = match parse_message_at(s, i3) {
        Some(p) => p,
        None => {
            return None;
        },
    };
    let i5 = match expect_lit(s, i4, "}") {
        Some(j) => j,
        None => {
            return None;
        },
    };
    Some((Update { update_id, message }, i5))
}

/// Prepending already-parsed updates to the rest of an array parse.
pub open spec fn compose_updates(
    pre: Seq<UpdateModel>,
    r: Option<(Seq<UpdateModel>, int)>,
) -> Option<(Seq<UpdateModel>, int)> {
    match r {
        Some((us, k)) => Some((pre + us, k)),
        None => None,
    }
}

proof fn lemma_compose_updates_push(
    pre: Seq<UpdateModel>,
    u: UpdateModel,
    r: Option<(Seq<UpdateModel>, int)>,
)
    ensures
        compose_updates(
            pre,
            match r {
                Some((us, k)) => Some((seq![u] + us, k)),
                None => None,
            },
        ) == compose_updates(pre.push(u), r),
{
    match r {
        Some((us, k)) => {
            assert(pre + (seq![u] + us) =~= pre.push(u) + us);
        },
        None => {},
    }
}

/// Parses a whole update array after its opening bracket, up to and
/// including the closing bracket.
pub fn parse_update_seq_at(s: &Vec<char>, i: usize) -> (r: Option<(Vec<Update>, usize)>)
    ensures
        match r {
            Some(p) => parse_update_seq(s@, i as int) == Some((p.0.deep_view(), p.1 as int)),
            None => parse_update_seq(s@, i as int) is None,
        },
{
    if i >= s.len() {
        return None;
    }
    if s[i] == ']' {
        let empty: Vec<Update> = Vec::new();
        proof {
            assert(empty.deep_view() =~= Seq::<UpdateModel>::empty());
        }
        return Some((empty, i + 1));
    }
    let (u0, j0) = match parse_update_at(s, i) {
        Some(p) => p,
        None => {
            return None;
        },
    };
    if !(j0 > i && j0 <= s.len()) {
        return None;
    }
    let mut acc: Vec<Update> = Vec::new();
    acc.push(u0);
    let mut cur: usize = j0;
    proof {
        assert(acc.deep_view() =~= seq![u0@]);
    }
    loop
        invariant
            i < cur <= s@.len(),
            parse_update_seq(s@, i as int) == compose_updates(
                acc.deep_view(),
                parse_update_more(s@, cur as int),
            ),
        decreases s@.len() - cur,
    {
        if cur >= s.len() {
            return None;
        }
        let c = s[cur];
        if c == ']' {
            proof {
                assert(acc.deep_view() + Seq::<UpdateModel>::empty() =~= acc.deep_view());
            }
            return Some((acc, cur + 1));
        }
        if c != ',' {
            return None;
        }
        let (u, j) = match parse_update_at(s, cur + 1) {
            Some(p) => p,
            None => {
                return None;
            },
        };
        if !(j > cur + 1 && j <= s.len()) {
            return None;
        }
        proof {
            lemma_compose_updates_push(acc.deep_view(), u@, parse_update_more(s@, j as int));
        }
        let ghost prev = acc.deep_view();
        acc.push(u);
        proof {
            assert(acc.deep_view() =~= prev.push(u@));
        }
        cur = j;
    }
}

/// Whether text decodes, completely, as a `getUpdates` response.
pub open spec fn decodes_as_updates(s: Seq<char>) -> bool {
    match parse_updates_response(s, 0) {
        Some((r, j)) => j == s.len(),
        None => false,
    }
}

/// Whether text decodes, completely, as a `sendMessage` response.
pub open spec fn decodes_as_message(s: Seq<char>) -> bool {
    match parse_message_response(s, 0) {
        Some((r, j)) => j == s.len(),
        None => false,
    }
}

/// Decodes a `getUpdates` response. Succeeds exactly when the whole text is
/// a well-formed response of that shape, and then returns exactly the
/// updates the text carries; anything else is a decode error.
pub fn decode_get_updates(s: &Vec<char>) -> (r: Result<
    ResponseContainer<Vec<Update>>,
    TelegramError,
>)
    ensures
        match r {
            Ok(v) => decodes_as_updates(s@) && parse_updates_response(s@, 0) == Some(
                (v@, s@.len() as int),
            ),
            Err(e) => !decodes_as_updates(s@) && e matches TelegramError::JsonError { msg: _ },
        },
{
    let err_msg = "malformed getUpdates response";
    let i1 = match expect_lit(s, 0, "{\"ok\":") {
        Some(j) => j,
        None => {
            return Err(TelegramError::JsonError { msg: err_msg.to_owned() });
        },
    };
    let (ok, i2) = match parse_bool_at(s, i1) {
        Some(p) => p,
        None => {
            return Err(TelegramError::JsonError { msg: err_msg.to_owned() });
        },
    };
    let i3 = match expect_lit(s, i2, ",\"result\":[") {
        Some(j) => j,
        None => {
            return Err(TelegramError::JsonError { msg: err_msg.to_owned() });
        },
    };
    let (result, i4) = match parse_update_seq_at(s, i3) {
        Some(p) => p,
        None => {
            return Err(TelegramError::JsonError { msg: err_msg.to_owned() });
        },
    };
    let i5 = match expect_lit(s, i4, "}") {
        Some(j) => j,
        None => {
            return Err(TelegramError::JsonError { msg: err_msg.to_owned() });
        },
    };
    if i5 != s.len() {
        return Err(TelegramError::JsonError { msg: err_msg.to_owned() });
    }
    Ok(ResponseContainer { ok, result })
}

/// Decodes a `sendMessage` response. Succeeds exactly when the whole text is
/// a well-formed response of that shape; anything else is a decode error.
pub fn decode_send_message(s: &Vec<char>) -> (r: Result<
    ResponseContainer<Message>,
    TelegramError,
>)
    ensures
        match r {
            Ok(v) => decodes_as_message(s@) && parse_message_response(s@, 0) == Some(
                (v@, s@.len() as int),
            ),
            Err(e) => !decodes_as_message(s@) && e matches TelegramError::JsonError { msg: _ },
        },
{
    let err_msg = "malformed sendMessage response";
    let i1 = match expect_lit(s, 0, "{\"ok\":") {
        Some(j) => j,
        None => {
            return Err(TelegramError::JsonError { msg: err_msg.to_owned() });
        },
    };
    let (ok, i2) = match parse_bool_at(s, i1) {
        Some(p) => p,
        None => {
            return Err(TelegramError::JsonError { msg: err_msg.to_owned() });
        },
    };
    let i3 = match expect_lit(s, i2, ",\"result\":") {
        Some(j) => j,
        None => {
            return Err(TelegramError::JsonError { msg: err_msg.to_owned() });
        },
    };
    let (result, i4) = match parse_message_at(s, i3) {
        Some(p) => p,
        None => {
            return Err(TelegramError::JsonError { msg: err_msg.to_owned() });
        },
    };
    let i5 = match expect_lit(s, i4, "}") {
        Some(j) => j,
        None => {
            return Err(TelegramError::JsonError { msg: err_msg.to_owned() });
        },
    };
    if i5 != s.len() {
        return Err(TelegramError::JsonError { msg: err_msg.to_owned() });
    }
    Ok(ResponseContainer { ok, result })
}

} // verus!
