//! Game elements.
//!
//! Everything the player can open a window for is an element: the variant says
//! what it is, and the rest is what all elements have in common.
use crate::goods::Good;
use crate::producers::Producer;
use vstd::prelude::*;

verus! {

/// The text in the window of a blank element.
pub const BLANK_CAPTION: &'static str =
    "Hello! I am a blank element! I exist for testing purposes. \u{1F980}";

/// What an element is.
#[derive(Clone, Copy, PartialEq, Eq, Structural, Debug)]
pub enum ElemVariant {
    /// An element without content, for trying things out.
    Blank,
    /// A good.
    Good(Good),
    /// A producer.
    Producer(Producer),
}

/// An element: its variant and the state of its window.
#[derive(Debug)]
pub struct Element {
    /// What the element is.
    pub variant: ElemVariant,
    /// The title that identifies the element's window. It must not change once
    /// the window exists, and no two elements may share it.
    pub window_id: String,
    /// Whether the window is open.
    pub is_open: bool,
}

impl ElemVariant {
    /// The text that the element's window shows.
    pub open spec fn spec_caption(self) -> &'static str {
        match self {
            ElemVariant::Blank => BLANK_CAPTION,
            ElemVariant::Good(good) => good.spec_properties().name,
            ElemVariant::Producer(producer) => producer.spec_name(),
        }
    }

    /// The text that the element's window shows: a greeting for a blank
    /// element, and the catalog name of a good or a producer.
    pub fn caption(&self) -> (text: &'static str)
        ensures
            text == self.spec_caption(),
    {
        match self {
            ElemVariant::Blank => BLANK_CAPTION,
            ElemVariant::Good(good) => good.properties().name,
            ElemVariant::Producer(producer) => producer.name(),
        }
    }

    /// The producer, if the element is one.
    pub open spec fn spec_producer(self) -> Option<Producer> {
        match self {
            ElemVariant::Producer(producer) => Some(producer),
            _ => None,
        }
    }

    /// The producer, if the element is one.
    pub fn producer(&self) -> (producer: Option<Producer>)
        ensures
            producer == self.spec_producer(),
    {
        match self {
            ElemVariant::Producer(producer) => Some(*producer),
            _ => None,
        }
    }
}

impl Clone for Element {
    fn clone(&self) -> (element: Element)
        ensures
            element == *self,
    {
        Element { variant: self.variant, window_id: self.window_id.clone(), is_open: self.is_open }
    }
}

impl Default for ElemVariant {
    fn default() -> (variant: ElemVariant)
        ensures
            variant == ElemVariant::Blank,
    {
        ElemVariant::Blank
    }
}

impl Default for Element {
    /// A blank element with an empty window title. Give it a title of its own
    /// before a second element is made this way.
    fn default() -> (element: Element)
        ensures
            element.variant == ElemVariant::Blank,
            element.window_id@ == Seq::<char>::empty(),
            element.is_open,
    {
        Element { variant: ElemVariant::Blank, window_id: String::new(), is_open: true }
    }
}

} // verus!
