//! XML documents as the steps that a pull parser takes through them. The XML
//! grammar itself is the `quick-xml` crate's.

use quick_xml::events::Event;
use quick_xml::Reader;
use vstd::prelude::*;
use vstd::utf8::decode_utf8;
use vstd::utf8::valid_utf8;

verus! {

/// What the parser comes upon next.
#[derive(Debug, Clone)]
pub enum XmlToken {
    /// An opening tag, with its qualified name.
    Start(Vec<u8>),
    /// Character data.
    Text(String),
    /// Character data that is not in the document's encoding, with the error.
    Undecodable(String),
    /// A CDATA section.
    CData(Vec<u8>),
    /// A closing tag.
    End,
    /// Anything else that a document may hold.
    Other,
    /// The end of the document.
    Eof,
    /// The document is not well-formed here, with the error.
    Failed(String),
}

/// What an `XmlToken` holds.
pub enum XmlStep {
    Start(Seq<u8>),
    Text(Seq<char>),
    Undecodable(Seq<char>),
    CData(Seq<u8>),
    End,
    Other,
    Eof,
    Failed(Seq<char>),
}

impl View for XmlToken {
    type V = XmlStep;

    open spec fn view(&self) -> XmlStep {
        match *self {
            XmlToken::Start(name) => XmlStep::Start(name@),
            XmlToken::Text(text) => XmlStep::Text(text@),
            XmlToken::Undecodable(e) => XmlStep::Undecodable(e@),
            XmlToken::CData(bytes) => XmlStep::CData(bytes@),
            XmlToken::End => XmlStep::End,
            XmlToken::Other => XmlStep::Other,
            XmlToken::Eof => XmlStep::Eof,
            XmlToken::Failed(e) => XmlStep::Failed(e@),
        }
    }
}

/// `quick_xml::Reader`, a pull parser, of which nothing is stated but through
/// the functions below.
#[verifier::external_type_specification]
#[verifier::external_body]
#[verifier::reject_recursive_types(R)]
pub struct ExReader<R>(Reader<R>);

/// The steps that a `quick_xml::Reader` takes through a document with text
/// trimming on: up to its end, or up to and with the first failure.
pub uninterp spec fn xml_steps(document: Seq<u8>) -> Seq<XmlStep>;

/// The steps that a `quick_xml::Reader` still holds.
pub uninterp spec fn steps_ahead(reader: Reader<&[u8]>) -> Seq<XmlStep>;

/// `quick_xml::Reader::from_reader` on the bytes of a document, with
/// `Config::trim_text` on. The steps ahead depend on the bytes alone; the
/// grammar that decides them is not stated.
#[verifier::external_body]
pub(crate) fn open_reader(document: &[u8]) -> (reader: Reader<&[u8]>)
    ensures
        steps_ahead(reader) == xml_steps(document@),
{
    let mut reader = Reader::from_reader(document);
    reader.config_mut().trim_text(true);
    reader
}

/// `quick_xml::Reader::read_event`, with the name, the decoded text or the
/// bytes of the event copied out. It takes the first of the steps ahead, and
/// reports the end once there is none. A failure is the last step.
#[verifier::external_body]
pub(crate) fn read_token(reader: &mut Reader<&[u8]>) -> (token: XmlToken)
    ensures
        match token {
            XmlToken::Eof => steps_ahead(*old(reader)).len() == 0,
            XmlToken::Failed(_) => steps_ahead(*old(reader)) == seq![token@],
            _ => steps_ahead(*old(reader)) == seq![token@] + steps_ahead(*final(reader)),
        },
{
    match reader.read_event() {
        Ok(Event::Start(tag)) => XmlToken::Start(tag.name().as_ref().to_vec()),
        Ok(Event::Text(text)) => match text.decode() {
            Ok(text) => XmlToken::Text(text.into_owned()),
            Err(e) => XmlToken::Undecodable(e.to_string()),
        },
        Ok(Event::CData(data)) => XmlToken::CData(data.into_inner().into_owned()),
        Ok(Event::End(_)) => XmlToken::End,
        Ok(Event::Eof) => XmlToken::Eof,
        Ok(_) => XmlToken::Other,
        Err(e) => XmlToken::Failed(e.to_string()),
    }
}

/// What `String::from_utf8_lossy` makes of bytes.
pub uninterp spec fn lossy_utf8(bytes: Seq<u8>) -> Seq<char>;

/// `String::from_utf8_lossy`: the text that valid UTF-8 encodes; of other
/// bytes, which of them the replacement character stands for is not stated.
#[verifier::external_body]
pub(crate) fn utf8_lossy(bytes: &[u8]) -> (text: String)
    ensures
        text@ == lossy_utf8(bytes@),
        valid_utf8(bytes@) ==> text@ == decode_utf8(bytes@),
{
    String::from_utf8_lossy(bytes).into_owned()
}

} // verus!
