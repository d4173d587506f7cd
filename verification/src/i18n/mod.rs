//! Languages of the interface and their messages.

use vstd::prelude::*;
use vstd::string::StringExecFns;
use vstd::utf8::encode_utf8;

verus! {

/// A language of the interface.
#[derive(Debug, Clone, Copy, PartialEq, Eq, Structural)]
pub enum Language {
    English,
    Chinese,
}

/// The language that a tag names.
pub open spec fn language_of_tag(tag: Seq<char>) -> Option<Language> {
    if tag == "en-US"@ {
        Some(Language::English)
    } else if tag == "zh-CN"@ {
        Some(Language::Chinese)
    } else {
        None
    }
}

impl Language {
    /// The tag of the language.
    pub open spec fn tag(self) -> Seq<char> {
        match self {
            Language::English => "en-US"@,
            Language::Chinese => "zh-CN"@,
        }
    }

    /// The name of the language in the language itself.
    pub open spec fn display_name(self) -> Seq<char> {
        match self {
            Language::English => "English"@,
            Language::Chinese => "中文"@,
        }
    }

    /// The tag of the language.
    pub fn as_str(&self) -> (tag: &'static str)
        ensures
            tag@ == self.tag(),
    {
        match self {
            Language::English => "en-US",
            Language::Chinese => "zh-CN",
        }
    }

    /// The name of the language in the language itself.
    pub fn get_display_name(&self) -> (name: &'static str)
        ensures
            name@ == self.display_name(),
    {
        match self {
            Language::English => "English",
            Language::Chinese => "中文",
        }
    }

    /// Every language, English first.
    pub fn all() -> (languages: Vec<Language>)
        ensures
            languages@ == seq![Language::English, Language::Chinese],
    {
        let mut languages = Vec::new();
        languages.push(Language::English);
        languages.push(Language::Chinese);
        assert(languages@ =~= seq![Language::English, Language::Chinese]);
        languages
    }

    /// The language that `lang_str` is the tag of.
    pub fn from_str(lang_str: &str) -> (language: Option<Language>)
        ensures
            language == language_of_tag(lang_str@),
    {
        let given = lang_str.to_owned();
        if given == "en-US".to_owned() {
            Some(Language::English)
        } else if given == "zh-CN".to_owned() {
            Some(Language::Chinese)
        } else {
            None
        }
    }
}

/// Each language is the one that its tag names.
pub proof fn lemma_tag_round_trip(language: Language)
    ensures
        language_of_tag(language.tag()) == Some(language),
{
    reveal_strlit("en-US");
    reveal_strlit("zh-CN");
    assert("en-US"@[0] != "zh-CN"@[0]);
}

/// Number of bytes after `\u` or `\U` that make up a unicode escape: 4 and
/// 6; none after any other byte.
pub open spec fn escape_length(b: u8) -> int {
    if b == 0x75 {
        4
    } else if b == 0x55 {
        6
    } else {
        0
    }
}

/// A backslash at `i` starts a unicode escape with a byte of a character
/// that is not ASCII among the bytes that should be its hex digits.
pub open spec fn escape_breaks(bytes: Seq<u8>, i: int) -> bool {
    &&& 0 <= i && i + 1 < bytes.len()
    &&& bytes[i] == 0x5c
    &&& exists|p: int|
        i + 2 <= p < i + 2 + escape_length(bytes[i + 1]) && p < bytes.len() && #[trigger] bytes[p] >= 0x80
}

/// The byte at `p` is an ASCII digit.
pub open spec fn digit_at(bytes: Seq<u8>, p: int) -> bool {
    0 <= p < bytes.len() && 0x30 <= bytes[p] <= 0x39
}

/// A full stop at `i` is followed by 20 digits or more.
pub open spec fn long_fraction(bytes: Seq<u8>, i: int) -> bool {
    &&& 0 <= i < bytes.len()
    &&& bytes[i] == 0x2e
    &&& forall|p: int| i < p <= i + 20 ==> #[trigger] digit_at(bytes, p)
}

/// The byte is a blank between tokens: a space or part of a line end.
pub open spec fn is_blank(b: u8) -> bool {
    b == 0x20 || b == 0x0a || b == 0x0d
}

/// The first position from `from` on that holds no blank.
pub open spec fn after_blanks(bytes: Seq<u8>, from: int) -> int
    decreases bytes.len() - from,
{
    if 0 <= from < bytes.len() && is_blank(bytes[from]) {
        after_blanks(bytes, from + 1)
    } else {
        from
    }
}

/// The first position from `from` on that holds neither a digit nor a full
/// stop: where a number that is under way at `from` ends at the latest.
pub open spec fn after_number(bytes: Seq<u8>, from: int) -> int
    decreases bytes.len() - from,
{
    if 0 <= from < bytes.len() && (digit_at(bytes, from) || bytes[from] == 0x2e) {
        after_number(bytes, from + 1)
    } else {
        from
    }
}

/// After the blanks from `from` on stands the arrow `->` of a selector.
pub open spec fn arrow_follows(bytes: Seq<u8>, from: int) -> bool {
    let p = after_blanks(bytes, from);
    0 <= p && p + 1 < bytes.len() && bytes[p] == 0x2d && bytes[p + 1] == 0x3e
}

/// A brace at `i` opens a placeable that holds nothing but another
/// placeable: the next byte after blanks is a brace again.
pub open spec fn nested_placeable(bytes: Seq<u8>, i: int) -> bool {
    let p = after_blanks(bytes, i + 1);
    0 <= i < bytes.len() && bytes[i] == 0x7b && p < bytes.len() && bytes[p] == 0x7b
}

/// A brace at `i` opens a placeable that selects on a number: after blanks
/// comes a digit or a minus sign, and after the digits and full stops that
/// follow it, and blanks, the arrow.
pub open spec fn number_selector(bytes: Seq<u8>, i: int) -> bool {
    let p = after_blanks(bytes, i + 1);
    0 <= i < bytes.len() && bytes[i] == 0x7b && p < bytes.len() && (digit_at(bytes, p) || bytes[p] == 0x2d)
        && arrow_follows(bytes, after_number(bytes, p + 1))
}

/// A quotation mark at `q` can close the text that one at `p` opens, with
/// the arrow after it: it stands in the same line, and after it and blanks
/// comes the arrow.
pub open spec fn closes_selector(bytes: Seq<u8>, p: int, q: int) -> bool {
    &&& p < q < bytes.len()
    &&& bytes[q] == 0x22
    &&& forall|r: int| p < r < q ==> #[trigger] bytes[r] != 0x0a
    &&& arrow_follows(bytes, q + 1)
}

/// A brace at `i` opens a placeable that may select on a text: after
/// blanks comes a quotation mark, and some quotation mark later in the line
/// is followed, after blanks, by the arrow.
pub open spec fn text_selector(bytes: Seq<u8>, i: int) -> bool {
    let p = after_blanks(bytes, i + 1);
    0 <= i < bytes.len() && bytes[i] == 0x7b && p < bytes.len() && bytes[p] == 0x22 && exists|q: int| #[trigger]
        closes_selector(bytes, p, q)
}

/// Nothing that the parser or the formatter cannot take starts at `i`.
pub open spec fn position_is_tame(bytes: Seq<u8>, i: int) -> bool {
    &&& !escape_breaks(bytes, i)
    &&& !long_fraction(bytes, i)
    &&& !nested_placeable(bytes, i)
    &&& !number_selector(bytes, i)
    &&& !text_selector(bytes, i)
}

/// Every position of the bytes is tame.
pub open spec fn bytes_are_tame(bytes: Seq<u8>) -> bool {
    forall|i: int| 0 <= i < bytes.len() ==> #[trigger] position_is_tame(bytes, i)
}

/// The source can be handed to the parser and its messages to the
/// formatter. In its UTF-8 form
/// - no `\u` is followed, within 4 bytes, and no `\U`, within 6 bytes, by a
///   character that is not ASCII: the parser cannot report such an escape;
/// - no full stop is followed by 20 digits or more: the formatter cannot
///   tell the plural form of a number with so many fraction digits;
/// - no placeable holds nothing but another placeable, and none selects on
///   a number or on a text written out in the source: where a message grows
///   past the formatter's limit of placeables inside one of these, the
///   formatter cannot write down what it gave up on.
///
/// The test goes by bytes, not by the grammar, so it also refuses the few
/// sources in which such bytes stand where they would do no harm.
pub open spec fn source_is_tame(source: Seq<char>) -> bool {
    bytes_are_tame(encode_utf8(source))
}

/// `fluent::FluentResource`, a parsed source of messages. Nothing of it is
/// known but what `resource_entries` and `resource_source` name.
#[verifier::external_type_specification]
#[verifier::external_body]
pub struct ExFluentResource(fluent::FluentResource);

/// What a resource holds: the names of its messages and terms, in the order
/// of the source. The name of a term is taken without its leading dash.
pub uninterp spec fn resource_entries(r: fluent::FluentResource) -> Seq<Seq<char>>;

/// The source that a resource was parsed from, which it keeps.
pub uninterp spec fn resource_source(r: fluent::FluentResource) -> Seq<char>;

/// What parsing makes of a source: nothing if some part of the source does
/// not parse; else the names of its messages and terms, in order.
pub uninterp spec fn source_entries(source: Seq<char>) -> Option<Seq<Seq<char>>>;

/// Whether a tag is a well-formed language identifier.
pub uninterp spec fn language_tag_parses(tag: Seq<char>) -> bool;

/// `unic_langid::LanguageIdentifier`, a parsed language tag. It is only
/// carried from the parser to a bundle.
#[verifier::external_type_specification]
#[verifier::external_body]
pub struct ExLanguageIdentifier(unic_langid::LanguageIdentifier);

/// The messages of one language, kept in a `fluent::FluentBundle`. The
/// bundle's type mentions a type of a crate that cannot be named from here,
/// so the bundle is kept behind this struct, and nothing inside it is
/// visible to proofs: which entries the bundle has, what it was filled
/// from, and what it makes of its messages, is known only through
/// `bundle_names`, `bundle_sources` and `bundle_text`.
#[verifier::external_body]
pub struct MessageBundle {
    inner: fluent::FluentBundle<fluent::FluentResource>,
}

/// The names under which the bundle has an entry: those of its messages and
/// of its terms, a term's name taken without its leading dash.
pub uninterp spec fn bundle_names(b: MessageBundle) -> Set<Seq<char>>;

/// The sources of the resources that were added to the bundle, in the order
/// in which they were added.
pub uninterp spec fn bundle_sources(b: MessageBundle) -> Seq<Seq<char>>;

/// Every source that the bundle was filled from is tame.
pub open spec fn bundle_is_tame(b: MessageBundle) -> bool {
    forall|i: int| 0 <= i < bundle_sources(b).len() ==> source_is_tame(#[trigger] bundle_sources(b)[i])
}

/// What the bundle makes of the message `id` with the arguments `args`:
/// nothing if it has no message of that name or the message has no value;
/// else the formatted text, and the number of errors met in formatting it.
pub uninterp spec fn bundle_text(
    b: MessageBundle,
    id: Seq<char>,
    args: Seq<(Seq<char>, Seq<char>)>,
) -> Option<(Seq<char>, nat)>;

/// The arguments as names and values.
pub open spec fn args_view(args: Seq<(&str, &str)>) -> Seq<(Seq<char>, Seq<char>)> {
    Seq::new(args.len(), |i: int| (args[i].0@, args[i].1@))
}

/// The text and the number of errors, as the contracts see them.
pub open spec fn formatted_view(r: Option<(String, usize)>) -> Option<(Seq<char>, nat)> {
    match r {
        Some((text, errors)) => Some((text@, errors as nat)),
        None => None,
    }
}

/// `str::parse` to a `unic_langid::LanguageIdentifier`: the identifier that
/// the tag names, if the tag is well formed. Whether it is depends on the
/// tag alone, and is what `language_tag_parses` names; nothing is claimed of
/// which tags are.
#[verifier::external_body]
fn parse_language_id(tag: &str) -> (id: Option<unic_langid::LanguageIdentifier>)
    ensures
        id is Some <==> language_tag_parses(tag@),
{
    tag.parse::<unic_langid::LanguageIdentifier>().ok()
}

/// `fluent::FluentResource::try_new`: the parsed source, if all of it
/// parses. What comes of a source depends on the source alone, and is what
/// `source_entries` names: the resource holds the entries that it names,
/// and keeps the source. Nothing is claimed of which sources parse. The
/// source has to be tame: where a unicode escape in a string literal has too
/// few hex digits, the parser cuts the source one byte after the first byte
/// that is no hex digit, which fails inside a character of several bytes.
#[verifier::external_body]
fn parse_resource(source: String) -> (resource: Option<fluent::FluentResource>)
    requires
        source_is_tame(source@),
    ensures
        match resource {
            Some(r) => source_entries(source@) == Some(resource_entries(r)) && resource_source(r)
                == source@,
            None => source_entries(source@) is None,
        },
{
    fluent::FluentResource::try_new(source).ok()
}

impl MessageBundle {
    /// `fluent::FluentBundle::new` with one locale: a bundle without
    /// entries, so that it makes nothing of any name.
    #[verifier::external_body]
    fn new(locale: unic_langid::LanguageIdentifier) -> (b: MessageBundle)
        ensures
            bundle_names(b) == Set::<Seq<char>>::empty(),
            bundle_sources(b) == Seq::<Seq<char>>::empty(),
            forall|id: Seq<char>, args: Seq<(Seq<char>, Seq<char>)>|
                (#[trigger] bundle_text(b, id, args)) is None,
    {
        MessageBundle { inner: fluent::FluentBundle::new(vec![locale]) }
    }

    /// `fluent::FluentBundle::add_resource`: goes through the messages and
    /// terms of the resource in order and adds each under its name unless
    /// the bundle has an entry of that name by then, and says whether all
    /// were added. So all are added exactly if no two of them share a name
    /// and the bundle had none of the names, and afterwards the bundle has
    /// the names that it had and those of the resource. The bundle keeps the
    /// resource, with its source, whether all were added or not. Nothing is
    /// claimed of the texts of the bundle afterwards.
    #[verifier::external_body]
    fn add_resource(&mut self, resource: fluent::FluentResource) -> (all_added: bool)
        ensures
            all_added <==> resource_entries(resource).no_duplicates() && forall|i: int|
                0 <= i < resource_entries(resource).len() ==> !bundle_names(*old(self)).contains(
                    #[trigger] resource_entries(resource)[i],
                ),
            bundle_names(*final(self)) == bundle_names(*old(self)).union(
                resource_entries(resource).to_set(),
            ),
            bundle_sources(*final(self)) == bundle_sources(*old(self)).push(resource_source(resource)),
    {
        self.inner.add_resource(resource).is_ok()
    }

    /// `fluent::FluentBundle::get_message`, `fluent::FluentMessage::value`
    /// and `fluent::FluentBundle::format_pattern`, one after the other: the
    /// text of the message `id` formatted with `args`, and the number of
    /// errors that formatting reported. The result is what `bundle_text`
    /// names. Formatting without arguments and with an empty set of
    /// arguments give the same. The sources of the bundle have to be tame,
    /// for two reasons. To tell the plural form of a number the formatter
    /// raises ten to the number of its fraction digits, which does not fit
    /// with 20 or more; numbers come from the sources alone, since arguments
    /// are texts. And once more than 100 placeables have been resolved, the
    /// formatter gives up and writes, for each placeable that it is inside
    /// of, the reference that the placeable holds or selects on; it cannot
    /// do so for a placeable that holds a placeable or selects on a number or
    /// a text written out in the source.
    #[verifier::external_body]
    fn format(&self, id: &str, args: &[(&str, &str)]) -> (r: Option<(String, usize)>)
        requires
            bundle_is_tame(*self),
        ensures
            formatted_view(r) == bundle_text(*self, id@, args_view(args@)),
    {
        let message = self.inner.get_message(id)?;
        let pattern = message.value()?;
        let mut fluent_args = fluent::FluentArgs::new();
        for &(name, value) in args {
            fluent_args.set(name, value.to_string());
        }
        let mut errors = vec![];
        let text = self.inner.format_pattern(pattern, Some(&fluent_args), &mut errors);
        Some((text.to_string(), errors.len()))
    }
}

/// Why the messages of a language could not be loaded.
#[derive(Debug, Clone, Copy, PartialEq, Eq, Structural)]
pub enum LoadError {
    /// The tag of the language is no language identifier.
    InvalidLanguage,
    /// The source does not parse.
    InvalidResource,
    /// The source has a message twice, or a message and a term of one name.
    DuplicateMessage,
}

/// How loading ends, given how its three steps went: whether the tag of the
/// language parsed, whether the source parsed, and whether all entries of
/// the source were added to the bundle. The first step that went wrong
/// gives the error.
pub open spec fn load_outcome(language_parsed: bool, resource_parsed: bool, all_added: bool) -> Result<
    (),
    LoadError,
> {
    if !language_parsed {
        Err(LoadError::InvalidLanguage)
    } else if !resource_parsed {
        Err(LoadError::InvalidResource)
    } else if !all_added {
        Err(LoadError::DuplicateMessage)
    } else {
        Ok(())
    }
}

/// How loading the source `source` for the language of tag `tag` ends: well
/// exactly if the tag parses, the source is tame and parses, and no two
/// messages or terms of the source share a name. A source that is not tame
/// counts as one that does not parse.
pub open spec fn load_result(tag: Seq<char>, source: Seq<char>) -> Result<(), LoadError> {
    load_outcome(
        language_tag_parses(tag),
        source_is_tame(source) && source_entries(source) is Some,
        source_is_tame(source) && source_entries(source) is Some && source_entries(
            source,
        ).unwrap().no_duplicates(),
    )
}

/// The text that stands in for a message that cannot be given.
pub open spec fn unknown_message(key: Seq<char>) -> Seq<char> {
    "Unknown message key: "@ + key
}

/// The text of a message, given what a bundle makes of it, if there is a
/// bundle: the formatted text where formatting met no error, else the text
/// that stands in for it.
pub open spec fn message_or_unknown(key: Seq<char>, found: Option<(Seq<char>, nat)>) -> Seq<char> {
    match found {
        Some((text, errors)) => if errors == 0 {
            text
        } else {
            unknown_message(key)
        },
        None => unknown_message(key),
    }
}

/// The messages of the interface in each language that has been loaded,
/// and the language in use.
pub struct Locale {
    current_language: Language,
    english: Option<MessageBundle>,
    chinese: Option<MessageBundle>,
}

impl Locale {
    /// Every bundle of the locale was filled from tame sources only.
    #[verifier::type_invariant]
    spec fn tame(self) -> bool {
        &&& self.english is Some ==> bundle_is_tame(self.english.unwrap())
        &&& self.chinese is Some ==> bundle_is_tame(self.chinese.unwrap())
    }

    /// Whether a backslash at `i` starts a unicode escape that breaks.
    fn breaks_at(bytes: &[u8], i: usize) -> (breaks: bool)
        requires
            i < bytes@.len(),
        ensures
            breaks == escape_breaks(bytes@, i as int),
    {
        let n = bytes.len();
        if bytes[i] != 0x5c || n - i < 2 {
            return false;
        }
        let length: usize = if bytes[i + 1] == 0x75 {
            4
        } else if bytes[i + 1] == 0x55 {
            6
        } else {
            0
        };
        let mut k: usize = 0;
        while k < length && k < n - i - 2
            invariant
                n == bytes@.len(),
                i + 2 <= n,
                bytes@[i as int] == 0x5c,
                length == escape_length(bytes@[i + 1]),
                k <= length <= 6,
                forall|p: int| i + 2 <= p < i + 2 + k ==> (#[trigger] bytes@[p]) < 0x80,
            decreases length - k,
        {
            let at = i + 2 + k;
            if bytes[at] >= 0x80 {
                assert(bytes@[at as int] >= 0x80);
                return true;
            }
            k += 1;
        }
        false
    }

    /// Whether a full stop at `i` is followed by 20 digits or more.
    fn long_at(bytes: &[u8], i: usize) -> (long: bool)
        requires
            i < bytes@.len(),
        ensures
            long == long_fraction(bytes@, i as int),
    {
        let n = bytes.len();
        if bytes[i] != 0x2e {
            return false;
        }
        let mut k: usize = 1;
        while k <= 20
            invariant
                n == bytes@.len(),
                i < n,
                bytes@[i as int] == 0x2e,
                1 <= k <= 21,
                forall|p: int| i < p < i + k ==> #[trigger] digit_at(bytes@, p),
            decreases 21 - k,
        {
            if k >= n - i {
                assert(!long_fraction(bytes@, i as int)) by {
                    if long_fraction(bytes@, i as int) {
                        assert(digit_at(bytes@, n as int));
                    }
                }
                return false;
            }
            let at = i + k;
            if bytes[at] < 0x30 || bytes[at] > 0x39 {
                assert(!digit_at(bytes@, at as int));
                return false;
            }
            assert(digit_at(bytes@, at as int));
            k += 1;
        }
        true
    }

    /// The first position from `from` on that holds no blank.
    fn skip_blanks(bytes: &[u8], from: usize) -> (p: usize)
        requires
            from <= bytes@.len(),
        ensures
            p == after_blanks(bytes@, from as int),
            from <= p <= bytes@.len(),
    {
        let n = bytes.len();
        let mut p: usize = from;
        while p < n && (bytes[p] == 0x20 || bytes[p] == 0x0a || bytes[p] == 0x0d)
            invariant
                n == bytes@.len(),
                from <= p <= n,
                after_blanks(bytes@, from as int) == after_blanks(bytes@, p as int),
            decreases n - p,
        {
            p += 1;
        }
        p
    }

    /// The first position from `from` on that holds neither a digit nor a
    /// full stop.
    fn skip_number(bytes: &[u8], from: usize) -> (p: usize)
        requires
            from <= bytes@.len(),
        ensures
            p == after_number(bytes@, from as int),
            from <= p <= bytes@.len(),
    {
        let n = bytes.len();
        let mut p: usize = from;
        while p < n && ((0x30 <= bytes[p] && bytes[p] <= 0x39) || bytes[p] == 0x2e)
            invariant
                n == bytes@.len(),
                from <= p <= n,
                after_number(bytes@, from as int) == after_number(bytes@, p as int),
            decreases n - p,
        {
            p += 1;
        }
        p
    }

    /// Whether the arrow of a selector stands after the blanks from `from`
    /// on.
    fn arrow_after(bytes: &[u8], from: usize) -> (found: bool)
        requires
            from <= bytes@.len(),
        ensures
            found == arrow_follows(bytes@, from as int),
    {
        let n = bytes.len();
        let p = Self::skip_blanks(bytes, from);
        n - p >= 2 && bytes[p] == 0x2d && bytes[p + 1] == 0x3e
    }

    /// Whether a brace at `i` opens a placeable that holds nothing but
    /// another placeable.
    fn nested_at(bytes: &[u8], i: usize) -> (nested: bool)
        requires
            i < bytes@.len(),
        ensures
            nested == nested_placeable(bytes@, i as int),
    {
        if bytes[i] != 0x7b {
            return false;
        }
        let p = Self::skip_blanks(bytes, i + 1);
        p < bytes.len() && bytes[p] == 0x7b
    }

    /// Whether a brace at `i` opens a placeable that selects on a number.
    fn number_selector_at(bytes: &[u8], i: usize) -> (selects: bool)
        requires
            i < bytes@.len(),
        ensures
            selects == number_selector(bytes@, i as int),
    {
        if bytes[i] != 0x7b {
            return false;
        }
        let p = Self::skip_blanks(bytes, i + 1);
        if p >= bytes.len() {
            return false;
        }
        if !((0x30 <= bytes[p] && bytes[p] <= 0x39) || bytes[p] == 0x2d) {
            return false;
        }
        let end = Self::skip_number(bytes, p + 1);
        Self::arrow_after(bytes, end)
    }

    /// Whether a brace at `i` opens a placeable that may select on a text.
    fn text_selector_at(bytes: &[u8], i: usize) -> (selects: bool)
        requires
            i < bytes@.len(),
        ensures
            selects == text_selector(bytes@, i as int),
    {
        let n = bytes.len();
        if bytes[i] != 0x7b {
            return false;
        }
        let p = Self::skip_blanks(bytes, i + 1);
        if p >= n || bytes[p] != 0x22 {
            return false;
        }
        let mut q: usize = p + 1;
        while q < n && bytes[q] != 0x0a
            invariant
                n == bytes@.len(),
                i < n,
                bytes@[i as int] == 0x7b,
                p == after_blanks(bytes@, i + 1),
                bytes@[p as int] == 0x22,
                p < q <= n,
                forall|r: int| p < r < q ==> #[trigger] bytes@[r] != 0x0a,
                forall|c: int| p < c < q ==> !#[trigger] closes_selector(bytes@, p as int, c),
            decreases n - q,
        {
            if bytes[q] == 0x22 && Self::arrow_after(bytes, q + 1) {
                assert(closes_selector(bytes@, p as int, q as int));
                return true;
            }
            assert(!closes_selector(bytes@, p as int, q as int));
            q += 1;
        }
        assert forall|c: int| !#[trigger] closes_selector(bytes@, p as int, c) by {
            if closes_selector(bytes@, p as int, c) {
                if c >= q {
                    assert(q < n);
                    if c > q {
                        assert(bytes@[q as int] != 0x0a);
                    }
                }
            }
        }
        false
    }

    /// Whether nothing that the parser or the formatter cannot take starts
    /// at `i`.
    fn tame_at(bytes: &[u8], i: usize) -> (tame: bool)
        requires
            i < bytes@.len(),
        ensures
            tame == position_is_tame(bytes@, i as int),
    {
        let breaks = Self::breaks_at(bytes, i);
        let long = Self::long_at(bytes, i);
        let nested = Self::nested_at(bytes, i);
        let number = Self::number_selector_at(bytes, i);
        let text = Self::text_selector_at(bytes, i);
        !breaks && !long && !nested && !number && !text
    }

    /// Whether every position of the bytes is tame.
    fn all_tame(bytes: &[u8]) -> (tame: bool)
        ensures
            tame == bytes_are_tame(bytes@),
    {
        let n = bytes.len();
        let mut i: usize = 0;
        while i < n
            invariant
                n == bytes@.len(),
                i <= n,
                forall|j: int| 0 <= j < i ==> #[trigger] position_is_tame(bytes@, j),
            decreases n - i,
        {
            let tame = Self::tame_at(bytes, i);
            if !tame {
                assert(!position_is_tame(bytes@, i as int));
                assert(!bytes_are_tame(bytes@));
                return false;
            }
            assert(position_is_tame(bytes@, i as int));
            assert forall|j: int| 0 <= j < i + 1 implies #[trigger] position_is_tame(bytes@, j) by {
                if j == i {
                    assert(position_is_tame(bytes@, i as int));
                }
            }
            i += 1;
        }
        assert(bytes_are_tame(bytes@));
        true
    }

    /// Whether `source` is tame, and so can be loaded without harm.
    pub fn is_tame(source: &str) -> (tame: bool)
        ensures
            tame == source_is_tame(source@),
    {
        let bytes = source.as_bytes();
        assert(bytes@ == encode_utf8(source@));
        Self::all_tame(bytes)
    }

    /// The language in use.
    pub closed spec fn language(&self) -> Language {
        self.current_language
    }

    /// The messages loaded for `language`.
    pub closed spec fn bundle(&self, language: Language) -> Option<MessageBundle> {
        match language {
            Language::English => self.english,
            Language::Chinese => self.chinese,
        }
    }

    /// The text of the message `key` with the arguments `args` in the
    /// language in use.
    pub open spec fn text(&self, key: Seq<char>, args: Seq<(Seq<char>, Seq<char>)>) -> Seq<char> {
        match self.bundle(self.language()) {
            Some(b) => message_or_unknown(key, bundle_text(b, key, args)),
            None => unknown_message(key),
        }
    }

    /// A locale that uses `lang` and has no messages yet.
    pub fn new(lang: Language) -> (locale: Self)
        ensures
            locale.language() == lang,
            forall|language: Language| locale.bundle(language) is None,
    {
        Self { current_language: lang, english: None, chinese: None }
    }

    /// How loading ends, given how its three steps went; see
    /// [`load_outcome`].
    pub fn outcome(language_parsed: bool, resource_parsed: bool, all_added: bool) -> (r: Result<
        (),
        LoadError,
    >)
        ensures
            r == load_outcome(language_parsed, resource_parsed, all_added),
    {
        if !language_parsed {
            Err(LoadError::InvalidLanguage)
        } else if !resource_parsed {
            Err(LoadError::InvalidResource)
        } else if !all_added {
            Err(LoadError::DuplicateMessage)
        } else {
            Ok(())
        }
    }

    /// Loads the messages of `lang` from `source`, in place of those loaded
    /// for it before. Loading succeeds exactly if the tag of the language
    /// parses, the source is tame and parses, and no two messages or terms
    /// of the source share a name; the bundle of the language then has the
    /// entries of the source and no others. A source that is not tame is
    /// refused as one that does not parse. On failure the locale is as it
    /// was.
    pub fn load(&mut self, lang: Language, source: String) -> (r: Result<(), LoadError>)
        ensures
            r == load_result(lang.tag(), source@),
            final(self).language() == old(self).language(),
            forall|other: Language| other != lang ==> final(self).bundle(other) == old(self).bundle(other),
            r is Ok ==> final(self).bundle(lang) is Some && bundle_names(final(self).bundle(lang).unwrap())
                == source_entries(source@).unwrap().to_set(),
            r is Err ==> final(self).bundle(lang) == old(self).bundle(lang),
    {
        let lang_id = match parse_language_id(lang.as_str()) {
            Some(id) => id,
            None => {
                return Self::outcome(false, false, false);
            },
        };
        let mut bundle = MessageBundle::new(lang_id);
        if !Self::is_tame(source.as_str()) {
            return Self::outcome(true, false, false);
        }
        let resource = match parse_resource(source) {
            Some(resource) => resource,
            None => {
                return Self::outcome(true, false, false);
            },
        };
        let ghost entries = resource_entries(resource);
        let all_added = bundle.add_resource(resource);
        proof {
            use_type_invariant(&*self);
            assert(bundle_names(bundle) =~= entries.to_set());
            assert(bundle_sources(bundle) =~= seq![source@]);
            assert(bundle_is_tame(bundle));
        }
        let result = Self::outcome(true, true, all_added);
        if all_added {
            match lang {
                Language::English => {
                    self.english = Some(bundle);
                },
                Language::Chinese => {
                    self.chinese = Some(bundle);
                },
            }
        }
        result
    }

    /// Makes `lang` the language in use.
    pub fn set_language(&mut self, lang: Language)
        ensures
            final(self).language() == lang,
            forall|language: Language| final(self).bundle(language) == old(self).bundle(language),
    {
        proof {
            use_type_invariant(&*self);
        }
        self.current_language = lang;
    }

    /// The language in use.
    pub fn get_language(&self) -> (lang: &Language)
        ensures
            *lang == self.language(),
    {
        &self.current_language
    }

    /// The text that is given for `key` when `found` is what the bundle of
    /// the language in use makes of it.
    pub fn resolve(key: &str, found: Option<(String, usize)>) -> (text: String)
        ensures
            text@ == message_or_unknown(key@, formatted_view(found)),
    {
        match found {
            Some((text, errors)) => {
                if errors == 0 {
                    return text;
                }
            },
            None => {},
        }
        "Unknown message key: ".to_owned().concat(key)
    }

    /// The text of the message `key` in the language in use; where there is
    /// none, or it cannot be formatted without error, a text that says so
    /// and names the key.
    pub fn get_message(&self, key: &str) -> (text: String)
        ensures
            text@ == self.text(key@, Seq::empty()),
    {
        let no_args: [(&str, &str); 0] = [];
        assert(args_view(no_args@) =~= Seq::empty());
        self.get_message_args(key, &no_args)
    }

    /// The text of the message `key` in the language in use, with `args`
    /// filled in; where there is none, or it cannot be formatted without
    /// error, a text that says so and names the key.
    pub fn get_message_args(&self, key: &str, args: &[(&str, &str)]) -> (text: String)
        ensures
            text@ == self.text(key@, args_view(args@)),
    {
        proof {
            use_type_invariant(self);
        }
        let bundle = match self.current_language {
            Language::English => &self.english,
            Language::Chinese => &self.chinese,
        };
        match bundle {
            Some(b) => Self::resolve(key, b.format(key, args)),
            None => Self::resolve(key, None),
        }
    }
}

} // verus!
