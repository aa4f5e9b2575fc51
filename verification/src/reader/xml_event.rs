use vstd::prelude::*;

verus! {

/// The mathematical content of an [`XmlAttribute`].
pub struct AttributeModel {
    pub name: Seq<char>,
    pub value: Seq<char>,
}

/// One attribute of a start tag, as a name and a value.
#[derive(Debug, PartialEq, Eq)]
pub struct XmlAttribute {
    pub name: String,
    pub value: String,
}

impl View for XmlAttribute {
    type V = AttributeModel;

    open spec fn view(&self) -> AttributeModel {
        AttributeModel { name: self.name@, value: self.value@ }
    }
}

impl DeepView for XmlAttribute {
    type V = AttributeModel;

    open spec fn deep_view(&self) -> AttributeModel {
        self@
    }
}

/// The mathematical content of an [`XmlEvent`].
pub enum EventModel {
    StartTag { name: Seq<char>, attributes: Seq<AttributeModel> },
    EndTag { name: Seq<char> },
    Text { content: Seq<char> },
    EndOfStream,
    Other,
}

/// One structural event of a document, in the order a tokenizer meets them.
#[derive(Debug, PartialEq, Eq)]
pub enum XmlEvent {
    /// An element opens. The attributes stand in document order.
    StartTag { name: String, attributes: Vec<XmlAttribute> },
    /// An element closes.
    EndTag { name: String },
    /// Text between tags.
    Text { content: String },
    /// The document is at its end; what follows is not looked at.
    EndOfStream,
    /// Anything else: a comment, a declaration, a processing instruction.
    Other,
}

impl View for XmlEvent {
    type V = EventModel;

    open spec fn view(&self) -> EventModel {
        match self {
            XmlEvent::StartTag { name, attributes } => EventModel::StartTag {
                name: name@,
                attributes: attributes.deep_view(),
            },
            XmlEvent::EndTag { name } => EventModel::EndTag { name: name@ },
            XmlEvent::Text { content } => EventModel::Text { content: content@ },
            XmlEvent::EndOfStream => EventModel::EndOfStream,
            XmlEvent::Other => EventModel::Other,
        }
    }
}

impl DeepView for XmlEvent {
    type V = EventModel;

    open spec fn deep_view(&self) -> EventModel {
        self@
    }
}

} // verus!
