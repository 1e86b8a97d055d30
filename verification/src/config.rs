//! What the user configures, and the gateways that it leads to.
use crate::text;
use vstd::prelude::*;
use vstd::utf8;

verus! {

/// The plan gateway: takes a plan key, serves model 2.0 only.
pub const URL_PLAN: &'static str =
    "wss://openspeech.bytedance.com/api/v3/plan/sauc/bigmodel_async";

/// The speech console's gateway: takes a speech key, serves models 2.0 and 1.0.
pub const URL_SPEECH: &'static str =
    "wss://openspeech.bytedance.com/api/v3/sauc/bigmodel_async";

/// Model 2.0.
pub const RESOURCE_V2: &'static str = "volc.seedasr.sauc.duration";

/// Model 1.0.
pub const RESOURCE_V1: &'static str = "volc.bigasr.sauc.duration";

/// What the user configures. An empty text stands for one that is not set.
#[derive(Debug, Clone)]
pub struct Config {
    pub ark_api_key: String,
    pub speech_api_key: String,
    pub hotwords: Vec<String>,
    pub context: String,
    pub audio_device: String,
}

/// A way to the recognizer: a gateway, the key that it takes and the model.
#[derive(Debug, PartialEq, Eq)]
pub struct Route {
    pub url: &'static str,
    pub api_key: String,
    pub resource_id: &'static str,
}

/// A route as texts.
pub struct RouteView {
    pub url: Seq<char>,
    pub api_key: Seq<char>,
    pub resource_id: Seq<char>,
}

impl View for Route {
    type V = RouteView;

    open spec fn view(&self) -> RouteView {
        RouteView { url: self.url@, api_key: self.api_key@, resource_id: self.resource_id@ }
    }
}

/// The routes as texts.
pub open spec fn routes_view(routes: Seq<Route>) -> Seq<RouteView> {
    routes.map_values(|r: Route| r@)
}

/// The routes that the keys lead to, in the order in which they are tried: the
/// plan with model 2.0, then the speech console with model 2.0, then with 1.0.
pub open spec fn routes_for(ark_api_key: Seq<char>, speech_api_key: Seq<char>) -> Seq<RouteView> {
    let plan = if ark_api_key.len() > 0 {
        seq![
            RouteView { url: URL_PLAN@, api_key: ark_api_key, resource_id: RESOURCE_V2@ },
        ]
    } else {
        Seq::empty()
    };
    let speech = if speech_api_key.len() > 0 {
        seq![
            RouteView { url: URL_SPEECH@, api_key: speech_api_key, resource_id: RESOURCE_V2@ },
            RouteView { url: URL_SPEECH@, api_key: speech_api_key, resource_id: RESOURCE_V1@ },
        ]
    } else {
        Seq::empty()
    };
    plan + speech
}

impl Default for Config {
    fn default() -> (r: Config)
        ensures
            r.ark_api_key@.len() == 0,
            r.speech_api_key@.len() == 0,
            r.hotwords@.len() == 0,
            r.context@.len() == 0,
            r.audio_device@.len() == 0,
    {
        Config {
            ark_api_key: String::new(),
            speech_api_key: String::new(),
            hotwords: Vec::new(),
            context: String::new(),
            audio_device: String::new(),
        }
    }
}

impl Config {
    /// Gateways to try in order: plan (2.0), then speech console 2.0, then 1.0.
    pub fn routes(&self) -> (out: Vec<Route>)
        ensures
            routes_view(out@) == routes_for(self.ark_api_key@, self.speech_api_key@),
    {
        let mut out: Vec<Route> = Vec::new();
        if !self.ark_api_key.as_str().is_empty() {
            out.push(
                Route {
                    url: URL_PLAN,
                    api_key: self.ark_api_key.clone(),
                    resource_id: RESOURCE_V2,
                },
            );
        }
        if !self.speech_api_key.as_str().is_empty() {
            out.push(
                Route {
                    url: URL_SPEECH,
                    api_key: self.speech_api_key.clone(),
                    resource_id: RESOURCE_V2,
                },
            );
            out.push(
                Route {
                    url: URL_SPEECH,
                    api_key: self.speech_api_key.clone(),
                    resource_id: RESOURCE_V1,
                },
            );
        }
        assert(routes_view(out@) =~= routes_for(self.ark_api_key@, self.speech_api_key@));
        out
    }
}

/// A route exists just where a key is set.
pub proof fn a_key_opens_a_route(ark_api_key: Seq<char>, speech_api_key: Seq<char>)
    ensures
        routes_for(ark_api_key, speech_api_key).len() > 0 <==> ark_api_key.len() > 0
            || speech_api_key.len() > 0,
{
}

/// Every route leads to a gateway with the key that it takes, which is set, and
/// with a model that it serves.
pub proof fn routes_lead_to_gateways(ark_api_key: Seq<char>, speech_api_key: Seq<char>)
    ensures
        ({
            let routes = routes_for(ark_api_key, speech_api_key);
            forall|i: int|
                0 <= i < routes.len() ==> (#[trigger] routes[i]).api_key.len() > 0 && {
                    ||| routes[i].url == URL_PLAN@ && routes[i].api_key == ark_api_key
                        && routes[i].resource_id == RESOURCE_V2@
                    ||| routes[i].url == URL_SPEECH@ && routes[i].api_key == speech_api_key && (
                    routes[i].resource_id == RESOURCE_V2@ || routes[i].resource_id == RESOURCE_V1@)
                }
        }),
{
    let routes = routes_for(ark_api_key, speech_api_key);
    assert(routes.len() <= 3);
    assert forall|i: int| 0 <= i < routes.len() implies (#[trigger] routes[i]).api_key.len() > 0
        && {
        ||| routes[i].url == URL_PLAN@ && routes[i].api_key == ark_api_key && routes[i].resource_id
            == RESOURCE_V2@
        ||| routes[i].url == URL_SPEECH@ && routes[i].api_key == speech_api_key && (
        routes[i].resource_id == RESOURCE_V2@ || routes[i].resource_id == RESOURCE_V1@)
    } by {
        assert(i == 0 || i == 1 || i == 2);
    }
}

/// Whether `c` ends a hotword: a comma, ASCII or full-width, or a line feed.
pub open spec fn separator(c: char) -> bool {
    c == ',' || c == '\u{ff0c}' || c == '\n'
}

/// The stretches of `s` between separators.
pub open spec fn fields(s: Seq<char>) -> Seq<Seq<char>>
    decreases s.len(),
{
    if s.len() == 0 {
        seq![Seq::empty()]
    } else {
        let init = fields(s.drop_last());
        if separator(s.last()) {
            init.push(Seq::empty())
        } else {
            init.drop_last().push(init.last().push(s.last()))
        }
    }
}

/// The fields without the white space around them, blank ones left out.
pub open spec fn words(fields: Seq<Seq<char>>) -> Seq<Seq<char>>
    decreases fields.len(),
{
    if fields.len() == 0 {
        Seq::empty()
    } else {
        let word = text::trimmed(fields.last());
        if word.len() > 0 {
            words(fields.drop_last()).push(word)
        } else {
            words(fields.drop_last())
        }
    }
}

/// The texts as characters.
pub open spec fn texts(v: Seq<String>) -> Seq<Seq<char>> {
    v.map_values(|t: String| t@)
}

/// There is a field, even of an empty text.
proof fn fields_not_empty(s: Seq<char>)
    ensures
        fields(s).len() > 0,
    decreases s.len(),
{
    if s.len() > 0 {
        fields_not_empty(s.drop_last());
    }
}

/// Appends `field`, without the white space around it, unless it is blank.
fn push_word(out: &mut Vec<String>, field: &String)
    ensures
        texts(final(out)@) == if text::trimmed(field@).len() > 0 {
            texts(old(out)@).push(text::trimmed(field@))
        } else {
            texts(old(out)@)
        },
{
    let word = field.as_str().trim();
    if !word.is_empty() {
        out.push(word.to_owned());
    }
    assert(texts(out@) =~= if text::trimmed(field@).len() > 0 {
        texts(old(out)@).push(text::trimmed(field@))
    } else {
        texts(old(out)@)
    });
}

/// The hotwords in `list`, which stand between commas or line feeds.
pub fn parse_hotwords(list: &str) -> (out: Vec<String>)
    ensures
        texts(out@) == words(fields(list@)),
{
    let mut out: Vec<String> = Vec::new();
    let mut field = String::new();
    assert(list@.take(0) =~= Seq::empty());
    assert(fields(list@.take(0)).drop_last() =~= Seq::empty());
    assert(texts(out@) =~= Seq::empty());
    for c in it: list.chars()
        invariant
            it.seq() == list@,
            fields(list@.take(it.index())).len() > 0,
            field@ == fields(list@.take(it.index())).last(),
            texts(out@) == words(fields(list@.take(it.index())).drop_last()),
    {
        let ghost done = list@.take(it.index());
        let ghost next = list@.take(it.index() + 1);
        assert(next.drop_last() =~= done);
        assert(next.last() == c);
        if c == ',' || c == '\u{ff0c}' || c == '\n' {
            push_word(&mut out, &field);
            field = String::new();
            assert(fields(next).drop_last() =~= fields(done));
        } else {
            field.push(c);
            assert(fields(next).drop_last() =~= fields(done).drop_last());
        }
    }
    assert(list@.take(list@.len() as int) =~= list@);
    push_word(&mut out, &field);
    out
}

/// No field holds a separator.
proof fn fields_hold_no_separator(s: Seq<char>)
    ensures
        forall|i: int, k: int|
            0 <= i < fields(s).len() && 0 <= k < fields(s)[i].len() ==> !separator(
                #[trigger] fields(s)[i][k],
            ),
    decreases s.len(),
{
    if s.len() > 0 {
        let init = fields(s.drop_last());
        fields_hold_no_separator(s.drop_last());
        fields_not_empty(s.drop_last());
        assert forall|i: int, k: int|
            0 <= i < fields(s).len() && 0 <= k < fields(s)[i].len() implies !separator(
            #[trigger] fields(s)[i][k],
        ) by {
            if i < init.len() - 1 {
                assert(fields(s)[i] == init[i]);
                assert(!separator(init[i][k]));
            } else if i == init.len() - 1 {
                if k < init[i].len() {
                    assert(fields(s)[i][k] == init[i][k]);
                }
            }
        }
    }
}

/// Words are tight, not empty, and hold no separator where the fields hold none.
proof fn words_are_clean(fs: Seq<Seq<char>>)
    requires
        forall|i: int, k: int|
            0 <= i < fs.len() && 0 <= k < fs[i].len() ==> !separator(#[trigger] fs[i][k]),
    ensures
        forall|i: int| 0 <= i < words(fs).len() ==> clean(#[trigger] words(fs)[i]),
    decreases fs.len(),
{
    if fs.len() > 0 {
        let init = fs.drop_last();
        assert forall|i: int, k: int| 0 <= i < init.len() && 0 <= k < init[i].len() implies
            !separator(#[trigger] init[i][k]) by {
            assert(!separator(fs[i][k]));
        }
        words_are_clean(init);
        let last = fs.last();
        let word = text::trimmed(last);
        text::trimmed_is_tight(last);
        let at = choose|at: int|
            0 <= at <= last.len() - word.len() && #[trigger] last.subrange(at, at + word.len())
                == word;
        assert forall|k: int| 0 <= k < word.len() implies !separator(#[trigger] word[k]) by {
            assert(word[k] == fs[fs.len() - 1][at + k]);
        }
        assert forall|i: int| 0 <= i < words(fs).len() implies clean(#[trigger] words(fs)[i]) by {
            if i < words(init).len() {
                assert(words(fs)[i] == words(init)[i]);
            }
        }
    }
}

/// Whether `word` can be a hotword: not empty, without white space at its ends,
/// and without a separator.
pub open spec fn clean(word: Seq<char>) -> bool {
    &&& word.len() > 0
    &&& !text::white_space(word[0])
    &&& !text::white_space(word.last())
    &&& forall|k: int| 0 <= k < word.len() ==> !separator(#[trigger] word[k])
}

/// Every hotword that a list gives is clean, whatever the list holds.
pub proof fn hotwords_are_clean(list: Seq<char>)
    ensures
        forall|i: int|
            0 <= i < words(fields(list)).len() ==> clean(#[trigger] words(fields(list))[i]),
{
    fields_hold_no_separator(list);
    words_are_clean(fields(list));
}

/// The configuration as the addon hands it over: the bytes of each text, or
/// none where it is not given.
#[derive(Debug)]
pub struct RawConfig {
    pub ark_api_key: Option<Vec<u8>>,
    pub speech_api_key: Option<Vec<u8>>,
    /// Comma or line feed separated.
    pub hotwords: Option<Vec<u8>>,
    pub context: Option<Vec<u8>>,
    pub audio_device: Option<Vec<u8>>,
}

/// The text of a setting: without the white space around it, and empty where
/// the setting is not given.
pub open spec fn setting(raw: Option<Vec<u8>>) -> Seq<char> {
    match raw {
        None => Seq::empty(),
        Some(bytes) => text::trimmed(text::lossy_text(bytes@)),
    }
}

/// Where the bytes of a setting are well-formed UTF-8, `t` is the text that they
/// encode, without the white space around it.
pub open spec fn well_formed(raw: Option<Vec<u8>>, t: Seq<char>) -> bool {
    raw matches Some(bytes) ==> utf8::valid_utf8(bytes@) ==> t == text::trimmed(
        utf8::decode_utf8(bytes@),
    )
}

/// The text of a setting.
fn read_setting(raw: &Option<Vec<u8>>) -> (r: String)
    ensures
        r@ == setting(*raw),
        well_formed(*raw, r@),
{
    match raw {
        None => String::new(),
        Some(bytes) => text::from_utf8_lossy(bytes.as_slice()).as_str().trim().to_owned(),
    }
}

impl Config {
    /// Reads the configuration that the addon hands over.
    pub fn from_raw(raw: &RawConfig) -> (r: Config)
        ensures
            r.ark_api_key@ == setting(raw.ark_api_key),
            r.speech_api_key@ == setting(raw.speech_api_key),
            texts(r.hotwords@) == words(fields(setting(raw.hotwords))),
            r.context@ == setting(raw.context),
            r.audio_device@ == setting(raw.audio_device),
            // Well-formed bytes are taken as they decode.
            well_formed(raw.ark_api_key, r.ark_api_key@),
            well_formed(raw.speech_api_key, r.speech_api_key@),
            well_formed(raw.hotwords, setting(raw.hotwords)),
            well_formed(raw.context, r.context@),
            well_formed(raw.audio_device, r.audio_device@),
    {
        Config {
            ark_api_key: read_setting(&raw.ark_api_key),
            speech_api_key: read_setting(&raw.speech_api_key),
            hotwords: parse_hotwords(read_setting(&raw.hotwords).as_str()),
            context: read_setting(&raw.context),
            audio_device: read_setting(&raw.audio_device),
        }
    }
}

/// The plan key opens one route, the speech key two, each whatever the other key
/// is, and the plan's comes first.
pub proof fn keys_open_their_routes_in_order(ark_api_key: Seq<char>, speech_api_key: Seq<char>)
    ensures
        routes_for(ark_api_key, speech_api_key) == routes_for(ark_api_key, Seq::empty())
            + routes_for(Seq::empty(), speech_api_key),
        routes_for(Seq::empty(), Seq::empty()).len() == 0,
        ark_api_key.len() > 0 ==> ({
            let plan = routes_for(ark_api_key, Seq::empty());
            &&& plan.len() == 1
            &&& plan[0].url
                == "wss://openspeech.bytedance.com/api/v3/plan/sauc/bigmodel_async"@
            &&& plan[0].api_key == ark_api_key
            &&& plan[0].resource_id == "volc.seedasr.sauc.duration"@
        }),
        speech_api_key.len() > 0 ==> ({
            let speech = routes_for(Seq::empty(), speech_api_key);
            &&& speech.len() == 2
            &&& forall|i: int|
                0 <= i < 2 ==> (#[trigger] speech[i]).url
                    == "wss://openspeech.bytedance.com/api/v3/sauc/bigmodel_async"@
                    && speech[i].api_key == speech_api_key
            &&& speech[0].resource_id == "volc.seedasr.sauc.duration"@
            &&& speech[1].resource_id == "volc.bigasr.sauc.duration"@
        }),
{
    assert(routes_for(ark_api_key, speech_api_key) =~= routes_for(ark_api_key, Seq::empty())
        + routes_for(Seq::empty(), speech_api_key));
}

/// A separator parts the fields before it from those behind it.
proof fn fields_split(a: Seq<char>, c: char, b: Seq<char>)
    requires
        separator(c),
    ensures
        fields(a.push(c) + b) == fields(a) + fields(b),
    decreases b.len(),
{
    let whole = a.push(c) + b;
    if b.len() == 0 {
        assert(whole =~= a.push(c));
        assert(whole.drop_last() =~= a);
        assert(fields(whole) =~= fields(a) + fields(b));
    } else {
        let init = b.drop_last();
        fields_split(a, c, init);
        fields_not_empty(init);
        assert(whole.drop_last() =~= a.push(c) + init);
        assert(fields(whole) =~= fields(a) + fields(b));
    }
}

/// A text without separators is one field.
proof fn field_whole(s: Seq<char>)
    requires
        forall|k: int| 0 <= k < s.len() ==> !separator(#[trigger] s[k]),
    ensures
        fields(s) == seq![s],
    decreases s.len(),
{
    if s.len() > 0 {
        let init = s.drop_last();
        assert forall|k: int| 0 <= k < init.len() implies !separator(#[trigger] init[k]) by {
            assert(!separator(s[k]));
        }
        field_whole(init);
        assert(!separator(s[s.len() - 1]));
        assert(init.push(s.last()) =~= s);
        assert(fields(s) =~= seq![s]);
    } else {
        assert(s =~= Seq::empty());
    }
}

/// The words of fields are those of the first fields, then those of the others.
proof fn words_split(f: Seq<Seq<char>>, g: Seq<Seq<char>>)
    ensures
        words(f + g) == words(f) + words(g),
    decreases g.len(),
{
    if g.len() == 0 {
        assert(f + g =~= f);
        assert(words(f) + words(g) =~= words(f));
    } else {
        words_split(f, g.drop_last());
        assert((f + g).drop_last() =~= f + g.drop_last());
        assert(words(f + g) =~= words(f) + words(g));
    }
}

/// A comma, ASCII or full-width, and a line feed part the hotwords of a list:
/// those before it come first, then those behind it, and none is lost.
pub proof fn separators_part_hotwords(a: Seq<char>, c: char, b: Seq<char>)
    requires
        c == ',' || c == '\u{ff0c}' || c == '\n',
    ensures
        words(fields(a.push(c) + b)) == words(fields(a)) + words(fields(b)),
{
    fields_split(a, c, b);
    words_split(fields(a), fields(b));
}

/// A list without such a character is one hotword, without the white space
/// around it, or none, where it is blank.
pub proof fn a_lone_hotword_is_kept_whole(s: Seq<char>)
    requires
        forall|k: int|
            0 <= k < s.len() ==> #[trigger] s[k] != ',' && s[k] != '\u{ff0c}' && s[k] != '\n',
    ensures
        words(fields(s)) == if text::trimmed(s).len() > 0 {
            seq![text::trimmed(s)]
        } else {
            Seq::empty()
        },
{
    field_whole(s);
    assert(seq![s].drop_last() =~= Seq::empty());
    assert(words(seq![s].drop_last()) =~= Seq::empty());
    assert(words(seq![s]) =~= if text::trimmed(s).len() > 0 {
        seq![text::trimmed(s)]
    } else {
        Seq::empty()
    });
}

/// A setting is a stretch of the text that its bytes spell: there is nothing but
/// white space before it and behind it, and none at its ends. One that is not
/// given is empty.
pub proof fn settings_lose_white_space_only(bytes: Vec<u8>)
    ensures
        setting(None).len() == 0,
        ({
            let s = text::lossy_text(bytes@);
            let t = setting(Some(bytes));
            &&& t.len() > 0 ==> !text::white_space(t[0]) && !text::white_space(t.last())
            &&& exists|i: int|
                #![trigger s.subrange(i, i + t.len())]
                0 <= i <= s.len() - t.len() && s.subrange(i, i + t.len()) == t && (forall|k: int|
                    0 <= k < i ==> text::white_space(#[trigger] s[k])) && (forall|k: int|
                    i + t.len() <= k < s.len() ==> text::white_space(#[trigger] s[k]))
        }),
{
    text::trimmed_is_tight(text::lossy_text(bytes@));
    text::only_white_space_is_trimmed(text::lossy_text(bytes@));
}

/// Texts and routes are seen one by one, in order.
pub proof fn lists_are_seen_in_order(v: Seq<String>, routes: Seq<Route>)
    ensures
        texts(v).len() == v.len(),
        forall|i: int| 0 <= i < v.len() ==> #[trigger] texts(v)[i] == v[i]@,
        routes_view(routes).len() == routes.len(),
        forall|i: int|
            0 <= i < routes.len() ==> (#[trigger] routes_view(routes)[i]).url == routes[i].url@
                && routes_view(routes)[i].api_key == routes[i].api_key@
                && routes_view(routes)[i].resource_id == routes[i].resource_id@,
{
}

} // verus!
