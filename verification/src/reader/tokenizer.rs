use vstd::prelude::*;
use vstd::utf8::{decode_utf8, valid_utf8};
use quick_xml::events::Event;
use quick_xml::Reader;
use super::error::{ReadError, ReadErrorModel};
use super::xml_event::{AttributeModel, EventModel, XmlAttribute, XmlEvent};

verus! {

/// `quick_xml::Reader`, the tokenizer. Nothing inside it is visible here.
#[verifier::external_type_specification]
#[verifier::external_body]
#[verifier::reject_recursive_types(R)]
pub struct ExReader<R>(Reader<R>);

/// One attribute of a start tag as the tokenizer cut it out: the bytes of
/// the name and the bytes of the value, not yet decoded.
#[derive(Debug, PartialEq, Eq)]
pub struct RawAttribute {
    pub key: Vec<u8>,
    pub value: Vec<u8>,
}

/// The mathematical content of a [`RawAttribute`].
pub struct RawAttributeModel {
    pub key: Seq<u8>,
    pub value: Seq<u8>,
}

impl View for RawAttribute {
    type V = RawAttributeModel;

    open spec fn view(&self) -> RawAttributeModel {
        RawAttributeModel { key: self.key@, value: self.value@ }
    }
}

impl DeepView for RawAttribute {
    type V = RawAttributeModel;

    open spec fn deep_view(&self) -> RawAttributeModel {
        self@
    }
}

/// What a tokenizer yields in one step, as plain bytes: nothing is decoded
/// or unescaped yet.
#[derive(Debug, PartialEq, Eq)]
pub enum RawToken {
    /// A start tag: the bytes of its name, and its attributes in document
    /// order, with `None` for one that is malformed or repeated.
    Start(Vec<u8>, Vec<Option<RawAttribute>>),
    /// An end tag: the bytes of its name.
    End(Vec<u8>),
    /// Text between tags, as it stands in the document.
    Text(Vec<u8>),
    /// The end of the document.
    Eof,
    /// Anything else that is well-formed: a self-closing element, a comment,
    /// a declaration, a processing instruction.
    Other,
    /// The tokenizer gave up, with this message.
    Failed(String),
}

/// The mathematical content of a [`RawToken`].
pub enum RawTokenModel {
    Start { name: Seq<u8>, attributes: Seq<Option<RawAttributeModel>> },
    End { name: Seq<u8> },
    Text { content: Seq<u8> },
    Eof,
    Other,
    Failed { message: Seq<char> },
}

impl View for RawToken {
    type V = RawTokenModel;

    open spec fn view(&self) -> RawTokenModel {
        match self {
            RawToken::Start(name, attributes) => RawTokenModel::Start {
                name: name@,
                attributes: attributes.deep_view(),
            },
            RawToken::End(name) => RawTokenModel::End { name: name@ },
            RawToken::Text(content) => RawTokenModel::Text { content: content@ },
            RawToken::Eof => RawTokenModel::Eof,
            RawToken::Other => RawTokenModel::Other,
            RawToken::Failed(message) => RawTokenModel::Failed { message: message@ },
        }
    }
}

/// Whether a token is the last that a reader yields: the end of the
/// document, or the tokenizer's failure.
pub open spec fn is_final_token(token: RawTokenModel) -> bool {
    token is Eof || token is Failed
}

/// What a reader over a byte slice still holds: the tokens that successive
/// calls of `read_event` yield from the state the reader is in, up to and
/// including the first that is the end of the document or a failure.
pub uninterp spec fn tokens_of(reader: Reader<&[u8]>) -> Seq<RawTokenModel>;

/// What `quick_xml::escape::unescape` makes of a text: the text with its
/// character references and predefined entities replaced, or the message of
/// the error that it reports.
pub uninterp spec fn unescaped(text: Seq<char>) -> Result<Seq<char>, Seq<char>>;

/// Calls `quick_xml::Reader::read_event` and hands on what it yields as
/// plain bytes: the name that `BytesStart::name` or `BytesEnd::name` gives,
/// the attributes that `BytesStart::attributes` iterates over, the content
/// of a text, or the message that the error displays.
///
/// The token is the first of those that the reader holds. After the end of
/// the document or a failure nothing is claimed of the reader; after any
/// other token it holds the rest. That there are finitely many rests on the
/// reader's progress: every token but an end tag costs it at least one byte
/// of its input, and an end tag that costs none closes a self-closing
/// element whose start tag did.
#[verifier::external_body]
pub(crate) fn next_token(reader: &mut Reader<&[u8]>) -> (token: RawToken)
    ensures
        tokens_of(*old(reader)).len() > 0,
        token@ == tokens_of(*old(reader))[0],
        is_final_token(token@) ==> tokens_of(*old(reader)).len() == 1,
        !is_final_token(token@) ==> tokens_of(*final(reader)) == tokens_of(*old(reader)).skip(1),
{
    match reader.read_event() {
        Ok(Event::Start(e)) => RawToken::Start(
            e.name().0.to_vec(),
            e.attributes().map(
                |a| a.ok().map(|a| RawAttribute { key: a.key.0.to_vec(), value: a.value.to_vec() }),
            ).collect(),
        ),
        Ok(Event::End(e)) => RawToken::End(e.name().0.to_vec()),
        Ok(Event::Text(e)) => RawToken::Text(e.to_vec()),
        Ok(Event::Eof) => RawToken::Eof,
        Ok(_) => RawToken::Other,
        Err(e) => RawToken::Failed(e.to_string()),
    }
}

/// The mathematical content of the outcome of unescaping: the text, or the
/// message.
pub open spec fn outcome_view(outcome: Result<String, String>) -> Result<Seq<char>, Seq<char>> {
    match outcome {
        Ok(content) => Ok(content@),
        Err(message) => Err(message@),
    }
}

/// Calls `quick_xml::escape::unescape`, the function that
/// `BytesText::unescape` applies to a decoded text.
#[verifier::external_body]
pub(crate) fn unescape_text(text: &str) -> (outcome: Result<String, String>)
    ensures
        outcome_view(outcome) == unescaped(text@),
{
    match quick_xml::escape::unescape(text) {
        Ok(content) => Ok(content.into_owned()),
        Err(e) => Err(e.to_string()),
    }
}

/// Calls `String::from_utf8`: the string that the bytes encode, where they
/// are valid UTF-8, and nothing where they are not.
#[verifier::external_body]
pub(crate) fn utf8_to_string(bytes: Vec<u8>) -> (decoded: Option<String>)
    ensures
        decoded is Some == valid_utf8(bytes@),
        decoded matches Some(s) ==> s@ == decode_utf8(bytes@),
{
    String::from_utf8(bytes).ok()
}

/// Whether both the name and the value of a raw attribute are valid UTF-8.
pub open spec fn is_text(raw: RawAttributeModel) -> bool {
    valid_utf8(raw.key) && valid_utf8(raw.value)
}

/// The attribute that a raw attribute with valid bytes decodes to.
pub open spec fn decoded_attribute(raw: RawAttributeModel) -> AttributeModel {
    AttributeModel { name: decode_utf8(raw.key), value: decode_utf8(raw.value) }
}

/// The attributes of a start tag as the scan sees them: of what the
/// tokenizer yielded, those that are well-formed and valid UTF-8, decoded,
/// in their order. The others are skipped.
pub open spec fn decoded_attributes(raw: Seq<Option<RawAttributeModel>>) -> Seq<AttributeModel>
    decreases raw.len(),
{
    if raw.len() == 0 {
        Seq::empty()
    } else {
        let before = decoded_attributes(raw.drop_last());
        match raw.last() {
            Some(a) => if is_text(a) {
                before.push(decoded_attribute(a))
            } else {
                before
            },
            None => before,
        }
    }
}

/// What the outcome of unescaping a wanted text means to the scan: the text
/// as an event, or the end of the scan with the tokenizer's message.
pub open spec fn text_reading(outcome: Result<Seq<char>, Seq<char>>) -> Result<
    Option<EventModel>,
    ReadErrorModel,
> {
    match outcome {
        Ok(content) => Ok(Some(EventModel::Text { content })),
        Err(message) => Err(ReadErrorModel::Tokenizer { message }),
    }
}

/// What a token means to the scan: an event, nothing, or the end of the
/// scan.
///
/// - A tag becomes an event with its name decoded and, for a start tag, its
///   attributes decoded; a name that is not valid UTF-8 ends the scan.
/// - Text is passed over where `wants_text` is false and where it is not
///   valid UTF-8. Wanted text is unescaped; text that cannot be unescaped
///   ends the scan.
/// - The end of the document is the end of the stream.
/// - Anything else is passed over, and the tokenizer's failure ends the
///   scan.
pub open spec fn token_reading(token: RawTokenModel, wants_text: bool) -> Result<
    Option<EventModel>,
    ReadErrorModel,
> {
    match token {
        RawTokenModel::Start { name, attributes } => if valid_utf8(name) {
            Ok(
                Some(
                    EventModel::StartTag {
                        name: decode_utf8(name),
                        attributes: decoded_attributes(attributes),
                    },
                ),
            )
        } else {
            Err(ReadErrorModel::TagNameEncoding { raw_name: name })
        },
        RawTokenModel::End { name } => if valid_utf8(name) {
            Ok(Some(EventModel::EndTag { name: decode_utf8(name) }))
        } else {
            Err(ReadErrorModel::TagNameEncoding { raw_name: name })
        },
        RawTokenModel::Text { content } => if !wants_text || !valid_utf8(content) {
            Ok(None)
        } else {
            text_reading(unescaped(decode_utf8(content)))
        },
        RawTokenModel::Eof => Ok(Some(EventModel::EndOfStream)),
        RawTokenModel::Other => Ok(None),
        RawTokenModel::Failed { message } => Err(ReadErrorModel::Tokenizer { message }),
    }
}

/// Decodes the attributes of a start tag. An attribute that the tokenizer
/// found malformed, or whose name or value is not valid UTF-8, is skipped;
/// the scan goes on without it.
pub fn decode_attributes(raw: &Vec<Option<RawAttribute>>) -> (attributes: Vec<XmlAttribute>)
    ensures
        attributes.deep_view() == decoded_attributes(raw.deep_view()),
{
    let ghost given = raw.deep_view();
    let mut attributes: Vec<XmlAttribute> = Vec::new();
    let mut i: usize = 0;
    assert(given.take(0) =~= Seq::empty());
    while i < raw.len()
        invariant
            i <= raw@.len(),
            given == raw.deep_view(),
            attributes.deep_view() == decoded_attributes(given.take(i as int)),
        decreases raw@.len() - i,
    {
        let ghost before = attributes.deep_view();
        proof {
            assert(given.len() == raw@.len());
            assert(given.take(i + 1).drop_last() =~= given.take(i as int));
            assert(given.take(i + 1).last() == raw@[i as int].deep_view());
        }
        match &raw[i] {
            Some(attribute) => {
                match utf8_to_string(attribute.key.clone()) {
                    Some(name) => {
                        match utf8_to_string(attribute.value.clone()) {
                            Some(value) => {
                                attributes.push(XmlAttribute { name, value });
                                assert(attributes.deep_view() =~= before.push(
                                    decoded_attribute(attribute@),
                                ));
                            },
                            None => {},
                        }
                    },
                    None => {},
                }
            },
            None => {},
        }
        i += 1;
    }
    assert(given.take(i as int) =~= given);
    attributes
}

/// Turns the outcome of unescaping a wanted text into what the scan is to
/// do with it.
pub fn text_event(outcome: Result<String, String>) -> (event: Result<Option<XmlEvent>, ReadError>)
    ensures
        match text_reading(outcome_view(outcome)) {
            Ok(Some(expected)) => event matches Ok(Some(found)) && found@ == expected,
            Ok(None) => event matches Ok(None),
            Err(e) => event is Err && event->Err_0@ == e,
        },
{
    match outcome {
        Ok(content) => Ok(Some(XmlEvent::Text { content })),
        Err(message) => Err(ReadError::Tokenizer { message }),
    }
}

/// Turns a token into what the scan is to do with it: an event to take,
/// nothing, or an error to end with. `wants_text` says whether the scan
/// wants the text of the element that is open.
pub fn token_event(token: RawToken, wants_text: bool) -> (event: Result<
    Option<XmlEvent>,
    ReadError,
>)
    ensures
        match token_reading(token@, wants_text) {
            Ok(Some(expected)) => event matches Ok(Some(found)) && found@ == expected,
            Ok(None) => event matches Ok(None),
            Err(e) => event is Err && event->Err_0@ == e,
        },
{
    match token {
        RawToken::Start(raw_name, raw_attributes) => {
            match utf8_to_string(raw_name.clone()) {
                None => Err(ReadError::TagNameEncoding { raw_name }),
                Some(name) => {
                    let attributes = decode_attributes(&raw_attributes);
                    Ok(Some(XmlEvent::StartTag { name, attributes }))
                },
            }
        },
        RawToken::End(raw_name) => {
            match utf8_to_string(raw_name.clone()) {
                None => Err(ReadError::TagNameEncoding { raw_name }),
                Some(name) => Ok(Some(XmlEvent::EndTag { name })),
            }
        },
        RawToken::Text(raw_content) => {
            if !wants_text {
                Ok(None)
            } else {
                match utf8_to_string(raw_content) {
                    None => Ok(None),
                    Some(escaped) => text_event(unescape_text(escaped.as_str())),
                }
            }
        },
        RawToken::Eof => Ok(Some(XmlEvent::EndOfStream)),
        RawToken::Other => Ok(None),
        RawToken::Failed(message) => Err(ReadError::Tokenizer { message }),
    }
}

} // verus!
