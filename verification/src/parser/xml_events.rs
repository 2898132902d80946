use vstd::prelude::*;
use quick_xml::events::Event;

verus! {

/// quick-xml's reader event: only converted into `XmlEvent` below.
#[verifier::external_type_specification]
#[verifier::external_body]
pub struct ExQuickXmlEvent<'a>(quick_xml::events::Event<'a>);

/// quick-xml's error: only turned into its message below.
#[verifier::external_type_specification]
#[verifier::external_body]
pub struct ExQuickXmlError(quick_xml::Error);

/// An event of the XML reader, with the parts that the template parser reads.
pub enum XmlEvent {
    /// A start tag: its name, and its attributes as raw (key, value) pairs, or the
    /// message of the first attribute that did not parse.
    Start { name: String, attrs: Result<Vec<(String, String)>, String> },
    /// An end tag and its name.
    End { name: String },
    /// Raw (still escaped) text between tags.
    Text(String),
    /// The content of a CDATA section.
    CData(String),
    /// The end of the input.
    Eof,
    /// The reader's error message.
    Error(String),
    /// Any other event (empty element, comment, declaration, ...).
    Other,
}

/// The model of an `XmlEvent`.
pub enum XmlEventV {
    Start { name: Seq<char>, attrs: Result<Seq<(Seq<char>, Seq<char>)>, Seq<char>> },
    End { name: Seq<char> },
    Text(Seq<char>),
    CData(Seq<char>),
    Eof,
    Error(Seq<char>),
    Other,
}

pub open spec fn attr_pair_view(p: (String, String)) -> (Seq<char>, Seq<char>) {
    (p.0@, p.1@)
}

impl View for XmlEvent {
    type V = XmlEventV;

    open spec fn view(&self) -> XmlEventV {
        match self {
            XmlEvent::Start { name, attrs } => XmlEventV::Start {
                name: name@,
                attrs: match attrs {
                    Ok(a) => Ok(a@.map_values(|p: (String, String)| attr_pair_view(p))),
                    Err(e) => Err(e@),
                },
            },
            XmlEvent::End { name } => XmlEventV::End { name: name@ },
            XmlEvent::Text(t) => XmlEventV::Text(t@),
            XmlEvent::CData(t) => XmlEventV::CData(t@),
            XmlEvent::Eof => XmlEventV::Eof,
            XmlEvent::Error(e) => XmlEventV::Error(e@),
            XmlEvent::Other => XmlEventV::Other,
        }
    }
}

/// The events that quick-xml's `Reader` (text not trimmed) yields for a text,
/// in order, up to and including the first end-of-input or error.
pub uninterp spec fn xml_events_of(text: Seq<char>) -> Seq<XmlEventV>;

/// quick-xml's start tag: only converted into `XmlEvent::Start` below.
#[verifier::external_type_specification]
#[verifier::external_body]
pub struct ExQuickXmlBytesStart<'a>(quick_xml::events::BytesStart<'a>);

/// Converts a start tag: its name and its attributes, each as raw text.
#[verifier::external_body]
fn start_event(e: quick_xml::events::BytesStart<'_>) -> XmlEvent {
    XmlEvent::Start {
        name: String::from_utf8_lossy(e.name().as_ref()).into_owned(),
        attrs: e.attributes().map(|a| a.map(|a| (
            String::from_utf8_lossy(a.key.as_ref()).into_owned(),
            String::from_utf8_lossy(a.value.as_ref()).into_owned(),
        )).map_err(|e| e.to_string())).collect(),
    }
}

/// Converts one result of quick-xml's `read_event_into`, variant for variant.
#[verifier::external_body]
fn convert_event(ev: Result<Event<'_>, quick_xml::Error>) -> XmlEvent {
    match ev {
        Ok(Event::Start(e)) => start_event(e),
        Ok(Event::End(e)) => XmlEvent::End { name: String::from_utf8_lossy(e.name().as_ref()).into_owned() },
        Ok(Event::Text(e)) => XmlEvent::Text(std::str::from_utf8(e.as_ref()).unwrap_or_default().to_string()),
        Ok(Event::CData(e)) => XmlEvent::CData(std::str::from_utf8(e.as_ref()).unwrap_or_default().to_string()),
        Ok(Event::Eof) => XmlEvent::Eof,
        Ok(_) => XmlEvent::Other,
        Err(e) => XmlEvent::Error(e.to_string()),
    }
}

/// Reads a whole text with quick-xml's `Reader` (`trim_text(false)`), calling
/// `read_event_into` until it reports the end of the input or an error; the
/// events are the ones that `xml_events_of` names for the text. The calls
/// stay together here: when the reader reaches the end rests on quick-xml.
#[verifier::external_body]
pub(crate) fn read_xml_events(text: &str) -> (r: Vec<XmlEvent>)
    ensures
        r@.map_values(|e: XmlEvent| e@) == xml_events_of(text@),
{
    let mut reader = quick_xml::Reader::from_reader(std::io::Cursor::new(text.as_bytes()));
    reader.config_mut().trim_text(false);
    let (mut buf, mut events) = (Vec::new(), Vec::new());
    loop {
        match reader.read_event_into(&mut buf) {
            Ok(Event::Eof) => return { events.push(XmlEvent::Eof); events },
            Err(e) => return { events.push(XmlEvent::Error(e.to_string())); events },
            other => events.push(convert_event(other)),
        }
        buf.clear();
    }
}

} // verus!
