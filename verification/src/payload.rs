//! The settings that open a recognition session.
use crate::config;
use crate::config::Config;
use crate::json;
use crate::json::{Json, JsonView};
use vstd::prelude::*;
use vstd::utf8;

verus! {

/// The object with the one entry.
pub open spec fn singleton(key: Seq<char>, v: JsonView) -> JsonView {
    JsonView::Object(Map::empty().insert(key, v))
}

/// The hotwords as the recognizer takes them.
pub open spec fn hotwords_json(hotwords: Seq<Seq<char>>) -> JsonView {
    JsonView::Array(hotwords.map_values(|w: Seq<char>| singleton("word"@, JsonView::Str(w))))
}

/// The hints to the recognizer: the hotwords, where there are any, and the
/// free-text context, where there is one.
pub open spec fn hints(hotwords: Seq<Seq<char>>, context: Seq<char>) -> Map<Seq<char>, JsonView> {
    let words = if hotwords.len() > 0 {
        Map::empty().insert("hotwords"@, hotwords_json(hotwords))
    } else {
        Map::empty()
    };
    if context.len() > 0 {
        words.insert("context_type"@, JsonView::Str("dialog_ctx"@)).insert(
            "context_data"@,
            JsonView::Array(seq![singleton("text"@, JsonView::Str(context))]),
        )
    } else {
        words
    }
}

/// What is asked of the recognizer: two-pass recognition with punctuation and
/// inverse text normalization, and the text that carries the hints, where there
/// is one.
pub open spec fn request_json(corpus: Option<Seq<char>>) -> JsonView {
    let plain = Map::empty().insert("model_name"@, JsonView::Str("bigmodel"@)).insert(
        "enable_itn"@,
        JsonView::Bool(true),
    ).insert("enable_punc"@, JsonView::Bool(true)).insert(
        "enable_ddc"@,
        JsonView::Bool(false),
    ).insert("enable_nonstream"@, JsonView::Bool(true)).insert(
        "result_type"@,
        JsonView::Str("full"@),
    );
    match corpus {
        Some(t) => JsonView::Object(
            plain.insert("corpus"@, singleton("context"@, JsonView::Str(t))),
        ),
        None => JsonView::Object(plain),
    }
}

/// The format of the audio: raw 16-bit mono PCM at 16 kHz.
pub open spec fn audio_json() -> JsonView {
    JsonView::Object(
        Map::empty().insert("format"@, JsonView::Str("pcm"@)).insert(
            "codec"@,
            JsonView::Str("raw"@),
        ).insert("rate"@, JsonView::Uint(16000)).insert("bits"@, JsonView::Uint(16)).insert(
            "channel"@,
            JsonView::Uint(1),
        ),
    )
}

/// The settings that open a session, with the text that carries the hints.
pub open spec fn payload_json(corpus: Option<Seq<char>>) -> JsonView {
    JsonView::Object(
        Map::empty().insert("user"@, singleton("uid"@, JsonView::Str("fcitx5-voicetype"@))).insert(
            "audio"@,
            audio_json(),
        ).insert("request"@, request_json(corpus)),
    )
}

/// The text that carries the hints, where there are any.
pub open spec fn corpus_of(hotwords: Seq<Seq<char>>, context: Seq<char>) -> Option<Seq<char>> {
    if hotwords.len() > 0 || context.len() > 0 {
        Some(json::json_text(JsonView::Object(hints(hotwords, context))))
    } else {
        None
    }
}

/// Appends an entry to an object.
fn put(entries: &mut Vec<(String, Json)>, key: &str, v: Json)
    ensures
        json::entries_view(final(entries)@) == json::entries_view(old(entries)@).insert(key@, v@),
        final(entries)@.len() == old(entries)@.len() + 1,
{
    entries.push((key.to_owned(), v));
    assert(entries@.drop_last() =~= old(entries)@);
}

/// A JSON string.
fn string(s: &str) -> (r: Json)
    ensures
        r@ == JsonView::Str(s@),
{
    Json::Str(s.to_owned())
}

/// The object with the one entry.
fn object1(key: &str, v: Json) -> (r: Json)
    ensures
        r@ == singleton(key@, v@),
{
    let mut entries: Vec<(String, Json)> = Vec::new();
    put(&mut entries, key, v);
    Json::Object(entries)
}

/// The hotwords as the recognizer takes them.
fn hotwords_array(hotwords: &Vec<String>) -> (r: Json)
    ensures
        r@ == hotwords_json(config::texts(hotwords@)),
{
    let mut items: Vec<Json> = Vec::new();
    let mut i: usize = 0;
    while i < hotwords.len()
        invariant
            i <= hotwords@.len(),
            items@.len() == i,
            forall|k: int|
                0 <= k < i ==> (#[trigger] items@[k])@ == singleton(
                    "word"@,
                    JsonView::Str(hotwords@[k]@),
                ),
        decreases hotwords.len() - i,
    {
        items.push(object1("word", string(hotwords[i].as_str())));
        i += 1;
    }
    proof {
        json::items_view_index(items@);
        assert(json::items_view(items@) =~= config::texts(hotwords@).map_values(
            |w: Seq<char>| singleton("word"@, JsonView::Str(w)),
        ));
    }
    Json::Array(items)
}

/// Hints are read back as they are, and so is a payload: neither nests deep,
/// and the numbers are natural numbers.
pub proof fn payload_reads_back(
    hotwords: Seq<Seq<char>>,
    context: Seq<char>,
    corpus: Option<Seq<char>>,
)
    ensures
        json::reads_back(JsonView::Object(hints(hotwords, context)), json::MAX_DEPTH as nat),
        json::reads_back(payload_json(corpus), json::MAX_DEPTH as nat),
{
    reveal_with_fuel(json::reads_back, 6);
}

/// The recognizer finds every hotword and the context in the hints, and nothing
/// that was not configured.
pub proof fn hints_tell_all(hotwords: Seq<Seq<char>>, context: Seq<char>)
    ensures
        ({
            let h = JsonView::Object(hints(hotwords, context));
            &&& json::member(h, "hotwords"@) == if hotwords.len() > 0 {
                Some(hotwords_json(hotwords))
            } else {
                None
            }
            &&& json::member(h, "context_data"@) == if context.len() > 0 {
                Some(JsonView::Array(seq![singleton("text"@, JsonView::Str(context))]))
            } else {
                None
            }
            &&& json::member(h, "context_type"@) == if context.len() > 0 {
                Some(JsonView::Str("dialog_ctx"@))
            } else {
                None
            }
        }),
        forall|i: int|
            0 <= i < hotwords.len() ==> json::member(
                #[trigger] hotwords_json(hotwords)->Array_0[i],
                "word"@,
            ) == Some(JsonView::Str(hotwords[i])),
        json::member(singleton("text"@, JsonView::Str(context)), "text"@) == Some(
            JsonView::Str(context),
        ),
{
    reveal_strlit("hotwords");
    reveal_strlit("context_type");
    reveal_strlit("context_data");
    assert("hotwords"@.len() != "context_type"@.len());
    assert("hotwords"@.len() != "context_data"@.len());
    assert("context_type"@[8] != "context_data"@[8]);
}

/// The payload asks for the two-pass recognition of 16 kHz audio, and has a
/// corpus just where there is a text that carries hints.
pub proof fn payload_tells_all(corpus: Option<Seq<char>>)
    ensures
        json::member(payload_json(corpus), "request"@) == Some(request_json(corpus)),
        json::member(payload_json(corpus), "audio"@) == Some(audio_json()),
        json::member(request_json(corpus), "enable_nonstream"@) == Some(JsonView::Bool(true)),
        json::member(request_json(corpus), "corpus"@) == match corpus {
            Some(t) => Some(singleton("context"@, JsonView::Str(t))),
            None => None,
        },
        json::member(audio_json(), "rate"@) == Some(JsonView::Uint(16000)),
{
    reveal_strlit("request");
    reveal_strlit("audio");
    reveal_strlit("enable_nonstream");
    reveal_strlit("corpus");
    reveal_strlit("model_name");
    reveal_strlit("enable_itn");
    reveal_strlit("enable_punc");
    reveal_strlit("enable_ddc");
    reveal_strlit("result_type");
    reveal_strlit("rate");
    reveal_strlit("bits");
    reveal_strlit("channel");
    assert("request"@.len() == 7 && "audio"@.len() == 5);
    assert("enable_nonstream"@.len() == 16 && "result_type"@.len() == 11);
    assert("corpus"@.len() == 6 && "model_name"@.len() == 10 && "enable_itn"@.len() == 10);
    assert("enable_punc"@.len() == 11 && "enable_ddc"@.len() == 10);
    assert("rate"@.len() == 4 && "channel"@.len() == 7);
    assert("rate"@[0] != "bits"@[0]);
}

/// The keys of a request differ from one another.
proof fn request_keys_differ()
    ensures
        "model_name"@ != "enable_itn"@,
        "model_name"@ != "enable_punc"@,
        "model_name"@ != "enable_ddc"@,
        "model_name"@ != "enable_nonstream"@,
        "model_name"@ != "result_type"@,
        "model_name"@ != "corpus"@,
        "enable_itn"@ != "enable_punc"@,
        "enable_itn"@ != "enable_ddc"@,
        "enable_itn"@ != "enable_nonstream"@,
        "enable_itn"@ != "result_type"@,
        "enable_itn"@ != "corpus"@,
        "enable_punc"@ != "enable_ddc"@,
        "enable_punc"@ != "enable_nonstream"@,
        "enable_punc"@ != "result_type"@,
        "enable_punc"@ != "corpus"@,
        "enable_ddc"@ != "enable_nonstream"@,
        "enable_ddc"@ != "result_type"@,
        "enable_ddc"@ != "corpus"@,
        "enable_nonstream"@ != "result_type"@,
        "enable_nonstream"@ != "corpus"@,
        "result_type"@ != "corpus"@,
{
    reveal_strlit("model_name");
    reveal_strlit("enable_itn");
    reveal_strlit("enable_punc");
    reveal_strlit("enable_ddc");
    reveal_strlit("enable_nonstream");
    reveal_strlit("result_type");
    reveal_strlit("corpus");
    assert("model_name"@.len() == 10 && "enable_itn"@.len() == 10 && "enable_ddc"@.len() == 10);
    assert("enable_punc"@.len() == 11 && "result_type"@.len() == 11);
    assert("enable_nonstream"@.len() == 16 && "corpus"@.len() == 6);
    assert("model_name"@[0] == 'm' && "enable_itn"@[0] == 'e' && "enable_ddc"@[0] == 'e');
    assert("enable_itn"@[7] == 'i' && "enable_ddc"@[7] == 'd');
    assert("enable_punc"@[0] == 'e' && "result_type"@[0] == 'r');
}

/// Whatever the hints are, the request asks for the same model, for punctuation,
/// inverse text normalization and the second pass, for no removal of
/// disfluencies, and for the full text each time, and for nothing else.
pub proof fn requests_ask_for_the_same(corpus: Option<Seq<char>>)
    ensures
        ({
            let request = request_json(corpus);
            &&& json::member(request, "model_name"@) == Some(JsonView::Str("bigmodel"@))
            &&& json::member(request, "enable_itn"@) == Some(JsonView::Bool(true))
            &&& json::member(request, "enable_punc"@) == Some(JsonView::Bool(true))
            &&& json::member(request, "enable_ddc"@) == Some(JsonView::Bool(false))
            &&& json::member(request, "enable_nonstream"@) == Some(JsonView::Bool(true))
            &&& json::member(request, "result_type"@) == Some(JsonView::Str("full"@))
            &&& forall|key: Seq<char>| #[trigger]
                json::member(request, key) is Some ==> key == "model_name"@ || key == "enable_itn"@
                    || key == "enable_punc"@ || key == "enable_ddc"@ || key == "enable_nonstream"@
                    || key == "result_type"@ || key == "corpus"@ && corpus is Some
        }),
{
    request_keys_differ();
}

/// The text that carries the hints stands in the request under `corpus.context`,
/// as it is, and changes nothing else in the payload.
pub proof fn hints_change_the_corpus_only(t: Seq<char>)
    ensures
        json::member(request_json(None), "corpus"@) is None,
        json::member(request_json(Some(t)), "corpus"@) is Some,
        json::member(json::member(request_json(Some(t)), "corpus"@)->Some_0, "context"@) == Some(
            JsonView::Str(t),
        ),
        forall|key: Seq<char>|
            key != "corpus"@ ==> #[trigger] json::member(request_json(Some(t)), key)
                == json::member(request_json(None), key),
        forall|key: Seq<char>|
            key != "request"@ ==> #[trigger] json::member(payload_json(Some(t)), key)
                == json::member(payload_json(None), key),
{
    request_keys_differ();
}

/// The payload names the user, describes raw 16-bit mono PCM at 16 kHz, and holds
/// the request.
pub proof fn payload_describes_the_audio(corpus: Option<Seq<char>>)
    ensures
        ({
            let payload = payload_json(corpus);
            let user = json::member(payload, "user"@);
            let audio = json::member(payload, "audio"@);
            &&& user is Some && audio is Some
            &&& json::member(user->Some_0, "uid"@) == Some(JsonView::Str("fcitx5-voicetype"@))
            &&& json::member(audio->Some_0, "format"@) == Some(JsonView::Str("pcm"@))
            &&& json::member(audio->Some_0, "codec"@) == Some(JsonView::Str("raw"@))
            &&& json::member(audio->Some_0, "rate"@) == Some(JsonView::Uint(16000))
            &&& json::member(audio->Some_0, "bits"@) == Some(JsonView::Uint(16))
            &&& json::member(audio->Some_0, "channel"@) == Some(JsonView::Uint(1))
            &&& json::member(payload, "request"@) == Some(request_json(corpus))
            &&& forall|key: Seq<char>| #[trigger]
                json::member(payload, key) is Some ==> key == "user"@ || key == "audio"@ || key
                    == "request"@
            &&& forall|key: Seq<char>| #[trigger]
                json::member(user->Some_0, key) is Some ==> key == "uid"@
            &&& forall|key: Seq<char>| #[trigger]
                json::member(audio->Some_0, key) is Some ==> key == "format"@ || key == "codec"@
                    || key == "rate"@ || key == "bits"@ || key == "channel"@
        }),
{
    reveal_strlit("user");
    reveal_strlit("audio");
    reveal_strlit("request");
    reveal_strlit("format");
    reveal_strlit("codec");
    reveal_strlit("rate");
    reveal_strlit("bits");
    reveal_strlit("channel");
    assert("user"@.len() == 4 && "audio"@.len() == 5 && "request"@.len() == 7);
    assert("format"@.len() == 6 && "codec"@.len() == 5 && "channel"@.len() == 7);
    assert("rate"@.len() == 4 && "bits"@.len() == 4 && "rate"@[0] == 'r' && "bits"@[0] == 'b');
}

/// The hints hold every hotword, in order and as it is, and the context, and
/// nothing else.
pub proof fn hints_hold_what_is_configured(hotwords: Seq<Seq<char>>, context: Seq<char>)
    ensures
        ({
            let h = JsonView::Object(hints(hotwords, context));
            let words = json::member(h, "hotwords"@);
            let data = json::member(h, "context_data"@);
            &&& words is Some <==> hotwords.len() > 0
            &&& words is Some ==> words->Some_0 is Array && words->Some_0->Array_0.len()
                == hotwords.len()
            &&& words is Some ==> forall|i: int, key: Seq<char>|
                0 <= i < hotwords.len() ==> #[trigger] json::member(words->Some_0->Array_0[i], key)
                    == if key == "word"@ {
                    Some(JsonView::Str(hotwords[i]))
                } else {
                    None
                }
            &&& data is Some <==> context.len() > 0
            &&& data is Some ==> data->Some_0 is Array && data->Some_0->Array_0.len() == 1
            &&& data is Some ==> forall|key: Seq<char>| #[trigger]
                json::member(data->Some_0->Array_0[0], key) == if key == "text"@ {
                    Some(JsonView::Str(context))
                } else {
                    None
                }
            &&& json::member(h, "context_type"@) == if context.len() > 0 {
                Some(JsonView::Str("dialog_ctx"@))
            } else {
                None
            }
            &&& forall|key: Seq<char>| #[trigger]
                json::member(h, key) is Some ==> key == "hotwords"@ || key == "context_data"@ || key
                    == "context_type"@
        }),
{
    hints_tell_all(hotwords, context);
}

/// There is a text that carries hints just where a hotword or the context is
/// set, and it is the text of all of them.
pub proof fn all_hints_are_carried(hotwords: Seq<Seq<char>>, context: Seq<char>)
    ensures
        corpus_of(hotwords, context) is None <==> hotwords.len() == 0 && context.len() == 0,
        corpus_of(hotwords, context) matches Some(t) ==> t == json::json_text(
            JsonView::Object(hints(hotwords, context)),
        ),
{
}

/// The hints to the recognizer, as an object, where there are any.
pub fn hints_object(hotwords: &Vec<String>, context: &str) -> (r: Option<Json>)
    ensures
        if hotwords@.len() > 0 || context@.len() > 0 {
            r matches Some(j) && j@ == JsonView::Object(hints(config::texts(hotwords@), context@))
        } else {
            r is None
        },
{
    let mut ctx: Vec<(String, Json)> = Vec::new();
    if hotwords.len() > 0 {
        put(&mut ctx, "hotwords", hotwords_array(hotwords));
    }
    if !context.is_empty() {
        put(&mut ctx, "context_type", string("dialog_ctx"));
        let mut data: Vec<Json> = Vec::new();
        data.push(object1("text", string(context)));
        proof {
            json::items_view_index(data@);
            assert(json::items_view(data@) =~= seq![singleton("text"@, JsonView::Str(context@))]);
        }
        put(&mut ctx, "context_data", Json::Array(data));
    }
    if ctx.len() > 0 {
        Some(Json::Object(ctx))
    } else {
        None
    }
}

/// The settings that open a session, with the text that carries the hints.
pub fn payload_with(corpus: Option<String>) -> (r: Json)
    ensures
        r@ == payload_json(
            match corpus {
                Some(t) => Some(t@),
                None => None,
            },
        ),
{
    let mut request: Vec<(String, Json)> = Vec::new();
    put(&mut request, "model_name", string("bigmodel"));
    put(&mut request, "enable_itn", Json::Bool(true));
    put(&mut request, "enable_punc", Json::Bool(true));
    put(&mut request, "enable_ddc", Json::Bool(false));
    put(&mut request, "enable_nonstream", Json::Bool(true));
    put(&mut request, "result_type", string("full"));
    match corpus {
        Some(t) => put(&mut request, "corpus", object1("context", Json::Str(t))),
        None => {},
    }
    let mut audio: Vec<(String, Json)> = Vec::new();
    put(&mut audio, "format", string("pcm"));
    put(&mut audio, "codec", string("raw"));
    put(&mut audio, "rate", Json::Uint(16000));
    put(&mut audio, "bits", Json::Uint(16));
    put(&mut audio, "channel", Json::Uint(1));
    let mut payload: Vec<(String, Json)> = Vec::new();
    put(&mut payload, "user", object1("uid", string("fcitx5-voicetype")));
    put(&mut payload, "audio", Json::Object(audio));
    put(&mut payload, "request", Json::Object(request));
    Json::Object(payload)
}

/// The settings that open a session. Hotwords and free-text context share
/// `corpus.context`, a JSON *string*.
pub fn request_payload(cfg: &Config) -> (r: Json)
    ensures
        r@ == payload_json(corpus_of(config::texts(cfg.hotwords@), cfg.context@)),
        // The payload reads back, and so do the hints in it.
        json::reads_back(r@, json::MAX_DEPTH as nat),
        corpus_of(config::texts(cfg.hotwords@), cfg.context@) matches Some(t) ==> json::json_parse(
            utf8::encode_utf8(t),
        ) is Ok && json::json_parse(utf8::encode_utf8(t))->Ok_0 == JsonView::Object(
            hints(config::texts(cfg.hotwords@), cfg.context@),
        ),
{
    let ghost words = config::texts(cfg.hotwords@);
    proof {
        payload_reads_back(words, cfg.context@, corpus_of(words, cfg.context@));
    }
    let corpus = match hints_object(&cfg.hotwords, cfg.context.as_str()) {
        Some(hints) => Some(json::render(&hints)),
        None => None,
    };
    payload_with(corpus)
}

} // verus!
