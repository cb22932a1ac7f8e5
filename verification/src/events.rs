//! The forward-only XML event stream the extractor consumes: element opens,
//! text, element closes, and a marker for a well-formedness failure.

use vstd::prelude::*;

use xml::reader::XmlEvent;

verus! {

/// One parse event at the specification level.
pub enum Event {
    /// An element opened, with its local name.
    Open(Seq<char>),
    /// Character data inside the most recently opened element.
    Text(Seq<char>),
    /// An element closed, with its local name.
    Close(Seq<char>),
    /// The document is not well-formed from this point on.
    Malformed,
}

/// One parse event as the tokenizer hands it out.
pub enum RawEvent {
    Open(String),
    Text(String),
    Close(String),
    Malformed,
}

impl View for RawEvent {
    type V = Event;

    open spec fn view(&self) -> Event {
        match self {
            RawEvent::Open(name) => Event::Open(name@),
            RawEvent::Text(text) => Event::Text(text@),
            RawEvent::Close(name) => Event::Close(name@),
            RawEvent::Malformed => Event::Malformed,
        }
    }
}

/// The events of a sequence of raw events.
pub open spec fn events_view(evs: Seq<RawEvent>) -> Seq<Event> {
    evs.map_values(|e: RawEvent| e@)
}

/// The parse events that the XML reader yields for a document, in document
/// order, up to and including the first well-formedness failure if there is
/// one. Element names are local names; namespace prefixes are dropped.
pub uninterp spec fn xml_events(text: Seq<char>) -> Seq<Event>;

/// Relies on xml::reader::EventReader: a pull parser over the document text
/// whose events are a function of that text alone. Start and end tags map to
/// their local names, character data maps to text events, a parse error maps
/// to a final `Malformed` marker, and everything else is dropped.
#[verifier::external_body]
pub(crate) fn tokenize(text: &str) -> (r: Vec<RawEvent>)
    ensures
        events_view(r@) == xml_events(text@),
{
    let mut out = Vec::new();
    for ev in xml::reader::EventReader::from_str(text) {
        match ev {
            Ok(XmlEvent::StartElement { name, .. }) => out.push(RawEvent::Open(name.local_name)),
            Ok(XmlEvent::EndElement { name }) => out.push(RawEvent::Close(name.local_name)),
            Ok(XmlEvent::Characters(t)) => out.push(RawEvent::Text(t)),
            Ok(_) => {},
            Err(_) => { out.push(RawEvent::Malformed); break },
        }
    }
    out
}

} // verus!
