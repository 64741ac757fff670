//! Localised user-interface text through Project Fluent: the system locale,
//! the message catalogue, and lookups that fall back to the message key.
use vstd::prelude::*;
use fluent_bundle::bundle::FluentBundle;
use fluent_bundle::{FluentArgs, FluentResource};
use intl_memoizer::concurrent::IntlLangMemoizer;
use unic_langid::LanguageIdentifier;
use crate::text::{chars_of, string_of};

verus! {

#[verifier::external_type_specification]
#[verifier::external_body]
#[verifier::reject_recursive_types(R)]
#[verifier::reject_recursive_types(M)]
pub struct ExFluentBundle<R, M>(FluentBundle<R, M>);

#[verifier::external_type_specification]
#[verifier::external_body]
pub struct ExFluentResource(FluentResource);

#[verifier::external_type_specification]
#[verifier::external_body]
pub struct ExIntlLangMemoizer(IntlLangMemoizer);

#[verifier::external_type_specification]
#[verifier::external_body]
pub struct ExLanguageIdentifier(LanguageIdentifier);

#[verifier::external_type_specification]
#[verifier::external_body]
pub struct ExFluentArgs<'a>(FluentArgs<'a>);

/// The English messages, in Fluent syntax.
pub const EN_US_FTL: &'static str = "app-title = RuVNC Viewer\napp-version = Version { $version }\nstatus-servers = { $count ->\n    [one] { $count } server\n   *[other] { $count } servers\n}\n";

/// The messages of a bundle that have a value, each with its text as the
/// bundle formats it without arguments.
pub uninterp spec fn bundle_texts(b: FluentBundle<FluentResource, IntlLangMemoizer>) -> Map<
    Seq<char>,
    Seq<char>,
>;

/// The language identifier a text parses as, if it parses.
pub uninterp spec fn parsed_language_id(text: Seq<char>) -> Option<LanguageIdentifier>;

/// The locales a bundle formats for, in order of preference.
pub uninterp spec fn bundle_locales(b: FluentBundle<FluentResource, IntlLangMemoizer>) -> Seq<
    LanguageIdentifier,
>;

/// Whether a text parses as a Fluent resource without syntax errors.
pub uninterp spec fn resource_parses(source: Seq<char>) -> bool;

/// The source text a resource was parsed from.
pub uninterp spec fn resource_source(r: FluentResource) -> Seq<char>;

/// Whether no two entries of the resource parsed from `source` share an
/// identifier, so that all of them go into an empty bundle.
pub uninterp spec fn resource_ids_distinct(source: Seq<char>) -> bool;

/// For a bundle made by `new_concurrent` to which only resources were added
/// since, the sources of those resources in the order they were added;
/// `None` for any other bundle.
pub uninterp spec fn bundle_sources(b: FluentBundle<FluentResource, IntlLangMemoizer>) -> Option<
    Seq<Seq<char>>,
>;

/// The messages with a value, each formatted without arguments, of a bundle
/// made for `locales` to which resources with these sources were added in
/// order.
pub uninterp spec fn message_texts(sources: Seq<Seq<char>>, locales: Seq<LanguageIdentifier>) -> Map<
    Seq<char>,
    Seq<char>,
>;

/// A value handed to a message, as the formatter sees it.
pub enum ArgView {
    Text(Seq<char>),
    Number(i64),
}

/// No arguments.
pub open spec fn no_args() -> Map<Seq<char>, ArgView> {
    Map::empty()
}

/// The arguments held, each key with its value.
pub uninterp spec fn args_map(a: FluentArgs<'static>) -> Map<Seq<char>, ArgView>;

/// The text of message `id`, formatted with these arguments, in a bundle
/// made for `locales` to which resources with these sources were added in
/// order.
pub uninterp spec fn formatted_with_args(
    sources: Seq<Seq<char>>,
    locales: Seq<LanguageIdentifier>,
    id: Seq<char>,
    args: Map<Seq<char>, ArgView>,
) -> Seq<char>;

/// The system's preferred locale, from `sys_locale::get_locale`; what comes
/// back depends on the system, so nothing is promised of it.
#[verifier::external_body]
fn system_locale() -> (r: Option<String>) {
    sys_locale::get_locale()
}

/// `LanguageIdentifier::from_str` of `unic_langid`: the identifier the text
/// parses as, named `parsed_language_id`; `en-US` parses.
#[verifier::external_body]
fn parse_language_id(text: &str) -> (r: Option<LanguageIdentifier>)
    ensures
        r == parsed_language_id(text@),
        text@ == "en-US"@ ==> r is Some,
{
    text.parse::<LanguageIdentifier>().ok()
}

/// `FluentBundle::new_concurrent` with this single locale: a bundle without
/// resources or messages whose locales are `locale` alone.
#[verifier::external_body]
fn new_bundle(locale: LanguageIdentifier) -> (r: FluentBundle<FluentResource, IntlLangMemoizer>)
    ensures
        bundle_texts(r).dom().len() == 0,
        bundle_locales(r) == seq![locale],
        bundle_sources(r) == Some(Seq::<Seq<char>>::empty()),
{
    FluentBundle::new_concurrent(vec![locale])
}

/// `FluentResource::try_new`: the parsed resource, or `None` where the text
/// has syntax errors (named `resource_parses`). Which texts parse, and
/// what the resource holds, is not stated.
#[verifier::external_body]
fn parse_resource(source: String) -> (r: Option<FluentResource>)
    ensures
        r is Some <==> resource_parses(source@),
        r matches Some(res) ==> resource_source(res) == source@,
{
    FluentResource::try_new(source).ok()
}

/// `FluentBundle::add_resource`: whether the resource's entries were all
/// added without clashing with entries already there (into a bundle without
/// resources, exactly when the resource's own identifiers are distinct).
/// The locales stay; the resource joins the bundle's sources; and the
/// messages of a bundle that holds only resources are those of its sources
/// for its locales.
#[verifier::external_body]
fn add_resource(
    bundle: &mut FluentBundle<FluentResource, IntlLangMemoizer>,
    resource: FluentResource,
) -> (r: bool)
    ensures
        bundle_locales(*final(bundle)) == bundle_locales(*old(bundle)),
        bundle_sources(*old(bundle)) matches Some(s) ==> bundle_sources(*final(bundle)) == Some(
            s.push(resource_source(resource)),
        ),
        bundle_sources(*final(bundle)) matches Some(s) ==> bundle_texts(*final(bundle))
            == message_texts(s, bundle_locales(*final(bundle))),
        (bundle_sources(*old(bundle)) matches Some(s) && s.len() == 0) ==> (r
            == resource_ids_distinct(resource_source(resource))),
{
    bundle.add_resource(resource).is_ok()
}

/// `FluentBundle::get_message`, the message's `value` and
/// `FluentBundle::format_pattern` without arguments: the text of message
/// `id`, where the bundle has that message with a value.
#[verifier::external_body]
fn format_message(bundle: &FluentBundle<FluentResource, IntlLangMemoizer>, id: &str) -> (r:
    Option<String>)
    ensures
        r is Some <==> bundle_texts(*bundle).contains_key(id@),
        r matches Some(t) ==> t@ == bundle_texts(*bundle)[id@],
{
    let msg = match bundle.get_message(id) {
        Some(m) => m,
        None => return None,
    };
    let pattern = match msg.value() {
        Some(p) => p,
        None => return None,
    };
    let mut errors = Vec::new();
    Some(bundle.format_pattern(pattern, None, &mut errors).into_owned())
}

/// `FluentArgs::new`: no arguments.
#[verifier::external_body]
fn new_args() -> (r: FluentArgs<'static>)
    ensures
        args_map(r) == no_args(),
{
    FluentArgs::new()
}

/// `FluentArgs::set` with a text value: the key now holds that text,
/// replacing a value it held before.
#[verifier::external_body]
fn set_text_arg(args: &mut FluentArgs<'static>, key: String, value: String)
    ensures
        args_map(*final(args)) == args_map(*old(args)).insert(key@, ArgView::Text(value@)),
{
    args.set(key, value);
}

/// `FluentArgs::set` with a number value: the key now holds that number,
/// replacing a value it held before.
#[verifier::external_body]
fn set_number_arg(args: &mut FluentArgs<'static>, key: String, value: i64)
    ensures
        args_map(*final(args)) == args_map(*old(args)).insert(key@, ArgView::Number(value)),
{
    args.set(key, value);
}

/// `FluentBundle::get_message`, the message's `value` and
/// `FluentBundle::format_pattern` with arguments: the text of message `id`
/// formatted with `args`, where the bundle has that message with a value;
/// for a bundle that holds only resources, the text named
/// `formatted_with_args` of its sources and locales.
#[verifier::external_body]
fn format_message_with(
    bundle: &FluentBundle<FluentResource, IntlLangMemoizer>,
    id: &str,
    args: &FluentArgs<'static>,
) -> (r: Option<String>)
    ensures
        r is Some <==> bundle_texts(*bundle).contains_key(id@),
        bundle_sources(*bundle) matches Some(s) ==> (r matches Some(t) ==> t@
            == formatted_with_args(s, bundle_locales(*bundle), id@, args_map(*args))),
{
    let msg = match bundle.get_message(id) {
        Some(m) => m,
        None => return None,
    };
    let pattern = match msg.value() {
        Some(p) => p,
        None => return None,
    };
    let mut errors = Vec::new();
    Some(bundle.format_pattern(pattern, Some(args), &mut errors).into_owned())
}

/// A locale name with each `_` turned into `-`.
pub open spec fn normalized_locale(text: Seq<char>) -> Seq<char> {
    text.map_values(
        |c: char|
            if c == '_' {
                '-'
            } else {
                c
            },
    )
}

/// Turns each `_` of a locale name into `-` (`en_US` becomes `en-US`).
pub fn normalize_locale(text: &str) -> (r: String)
    ensures
        r@ == normalized_locale(text@),
{
    let cs = chars_of(text);
    let mut out: Vec<char> = Vec::new();
    let mut i: usize = 0;
    while i < cs.len()
        invariant
            i <= cs@.len(),
            cs@ == text@,
            out@ == normalized_locale(text@).take(i as int),
        decreases cs@.len() - i,
    {
        let c = cs[i];
        if c == '_' {
            out.push('-');
        } else {
            out.push(c);
        }
        i = i + 1;
        assert(out@ =~= normalized_locale(text@).take(i as int));
    }
    assert(normalized_locale(text@).take(cs@.len() as int) =~= normalized_locale(text@));
    string_of(out.as_slice())
}

/// The locale chosen from what the system reports: its locale, with `_`
/// turned into `-`, where that parses; `en-US` otherwise.
pub open spec fn chosen_locale(system: Option<Seq<char>>) -> LanguageIdentifier {
    let from_system = match system {
        Some(name) => parsed_language_id(normalized_locale(name)),
        None => None,
    };
    match from_system {
        Some(id) => id,
        None => parsed_language_id("en-US"@)->0,
    }
}

/// The locale to format with, given the locale the system reports: see
/// [`chosen_locale`].
pub fn choose_locale(system: Option<String>) -> (r: LanguageIdentifier)
    ensures
        r == chosen_locale(match system {
            Some(name) => Some(name@),
            None => None,
        }),
{
    match system {
        Some(name) => {
            let normalized = normalize_locale(name.as_str());
            match parse_language_id(normalized.as_str()) {
                Some(id) => {
                    return id;
                },
                None => {},
            }
        },
        None => {},
    }
    let fallback = "en-US";
    proof {
        reveal_strlit("en-US");
    }
    parse_language_id(fallback).unwrap()
}

/// The locale to format with: the system's, with `_` turned into `-`, where
/// it parses; `en-US` otherwise. Which locale the system reports is the
/// system's.
pub fn detect_locale() -> (r: LanguageIdentifier)
    ensures
        exists|system: Option<Seq<char>>| r == chosen_locale(system),
{
    let system = system_locale();
    let ghost seen = match &system {
        Some(name) => Some(name@),
        None => None,
    };
    let r = choose_locale(system);
    assert(r == chosen_locale(seen));
    r
}

/// A bundle for `locale` alone holding the English messages; `None` where
/// they do not parse or do not all go in.
pub fn create_bundle(locale: LanguageIdentifier) -> (r: Option<
    FluentBundle<FluentResource, IntlLangMemoizer>,
>)
    ensures
        r is Some <==> (resource_parses(EN_US_FTL@) && resource_ids_distinct(EN_US_FTL@)),
        r matches Some(b) ==> {
            &&& bundle_locales(b) == seq![locale]
            &&& bundle_sources(b) == Some(seq![EN_US_FTL@])
            &&& bundle_texts(b) == message_texts(seq![EN_US_FTL@], seq![locale])
        },
{
    let mut bundle = new_bundle(locale);
    let resource = match parse_resource(String::from_str(EN_US_FTL)) {
        Some(res) => res,
        None => {
            return None;
        },
    };
    proof {
        let s = bundle_sources(bundle)->0;
        assert(s.push(EN_US_FTL@) =~= seq![EN_US_FTL@]);
    }
    if add_resource(&mut bundle, resource) {
        Some(bundle)
    } else {
        None
    }
}

/// The text of message `id` in `bundle`, or `id` itself where the bundle
/// has no such message with a value.
pub fn lookup(bundle: &FluentBundle<FluentResource, IntlLangMemoizer>, id: &str) -> (r: String)
    ensures
        bundle_texts(*bundle).contains_key(id@) ==> r@ == bundle_texts(*bundle)[id@],
        !bundle_texts(*bundle).contains_key(id@) ==> r@ == id@,
{
    match format_message(bundle, id) {
        Some(text) => text,
        None => String::from_str(id),
    }
}

/// Whether the English messages go into a bundle: they parse, and no two
/// share an identifier.
pub open spec fn english_usable() -> bool {
    resource_parses(EN_US_FTL@) && resource_ids_distinct(EN_US_FTL@)
}

/// The English text of message `id` for `locale`, or `id` itself where
/// there is no such message or the English messages cannot be used.
pub open spec fn english_text(locale: LanguageIdentifier, id: Seq<char>) -> Seq<char> {
    let texts = message_texts(seq![EN_US_FTL@], seq![locale]);
    if english_usable() && texts.contains_key(id) {
        texts[id]
    } else {
        id
    }
}

/// The English text of message `id` formatted with `args` for `locale`, or
/// `id` itself where there is no such message or the English messages
/// cannot be used.
pub open spec fn english_text_with(
    locale: LanguageIdentifier,
    id: Seq<char>,
    args: Map<Seq<char>, ArgView>,
) -> Seq<char> {
    let texts = message_texts(seq![EN_US_FTL@], seq![locale]);
    if english_usable() && texts.contains_key(id) {
        formatted_with_args(seq![EN_US_FTL@], seq![locale], id, args)
    } else {
        id
    }
}

/// The text of message `id` for the system's locale, or `id` itself where
/// there is no such message: see [`english_text`].
pub fn t(id: &str) -> (r: String)
    ensures
        exists|system: Option<Seq<char>>| r@ == english_text(chosen_locale(system), id@),
{
    let locale = detect_locale();
    let ghost system = choose|system: Option<Seq<char>>| locale == chosen_locale(system);
    let r = match create_bundle(locale) {
        Some(bundle) => lookup(&bundle, id),
        None => String::from_str(id),
    };
    assert(r@ == english_text(chosen_locale(system), id@));
    r
}

/// A value handed to a message.
pub enum FluentArgValue {
    Text(String),
    Number(i64),
}

/// What the formatter sees of a value.
pub open spec fn arg_view(v: FluentArgValue) -> ArgView {
    match v {
        FluentArgValue::Text(s) => ArgView::Text(s@),
        FluentArgValue::Number(n) => ArgView::Number(n),
    }
}

/// The arguments as the formatter sees them: each key with its value, a
/// later pair replacing an earlier one with the same key.
pub open spec fn arg_map(args: Seq<(&str, FluentArgValue)>) -> Map<Seq<char>, ArgView>
    decreases args.len(),
{
    if args.len() == 0 {
        Map::empty()
    } else {
        arg_map(args.drop_last()).insert(args.last().0@, arg_view(args.last().1))
    }
}

/// The text of message `id` in `bundle` formatted with `args`, or `id`
/// itself where the bundle has no such message with a value.
pub fn lookup_with(
    bundle: &FluentBundle<FluentResource, IntlLangMemoizer>,
    id: &str,
    args: &[(&str, FluentArgValue)],
) -> (r: String)
    ensures
        !bundle_texts(*bundle).contains_key(id@) ==> r@ == id@,
        bundle_texts(*bundle).contains_key(id@) ==> (bundle_sources(*bundle) matches Some(s) ==> r@
            == formatted_with_args(s, bundle_locales(*bundle), id@, arg_map(args@))),
{
    let mut fluent_args = new_args();
    let mut i: usize = 0;
    assert(args@.take(0) =~= Seq::<(&str, FluentArgValue)>::empty());
    while i < args.len()
        invariant
            i <= args@.len(),
            args_map(fluent_args) == arg_map(args@.take(i as int)),
        decreases args@.len() - i,
    {
        let (key, value) = &args[i];
        assert(args@.take(i + 1).drop_last() =~= args@.take(i as int));
        assert(args@.take(i + 1).last() == args@[i as int]);
        match value {
            FluentArgValue::Text(s) => set_text_arg(&mut fluent_args, String::from_str(key), s.clone()),
            FluentArgValue::Number(n) => set_number_arg(&mut fluent_args, String::from_str(key), *n),
        }
        i = i + 1;
    }
    assert(args@.take(args@.len() as int) =~= args@);
    match format_message_with(bundle, id, &fluent_args) {
        Some(text) => text,
        None => String::from_str(id),
    }
}

/// The text of message `id` for the system's locale formatted with `args`,
/// or `id` itself where there is no such message: see
/// [`english_text_with`].
pub fn t_args(id: &str, args: &[(&str, FluentArgValue)]) -> (r: String)
    ensures
        exists|system: Option<Seq<char>>|
            r@ == english_text_with(chosen_locale(system), id@, arg_map(args@)),
{
    let locale = detect_locale();
    let ghost system = choose|system: Option<Seq<char>>| locale == chosen_locale(system);
    let r = match create_bundle(locale) {
        Some(bundle) => lookup_with(&bundle, id, args),
        None => String::from_str(id),
    };
    assert(r@ == english_text_with(chosen_locale(system), id@, arg_map(args@)));
    r
}

} // verus!
