//! Nodos stored as markdown files.
use vstd::prelude::*;
use crate::config::Config;
use crate::error::{ReadError, WriteError};
use crate::events::{event_text, markdown_events, markdown_events_of};
use crate::nodo::{Nodo, NodoBuilder};
use crate::reader::{read_events, read_spec, SpecRead};
use crate::writer::{nodo_text, write_nodo};

verus! {

#[derive(Debug, PartialEq, Default)]
pub struct Markdown;

impl Markdown {
    /// The file extension of markdown nodos.
    pub fn extension(&self) -> (r: &'static str)
        ensures
            r@ == "md"@,
    {
        "md"
    }

    /// Reads a markdown text into the nodo that `nodo` holds.
    pub fn read(&self, nodo: NodoBuilder, text: &str, config: &Config) -> (r: Result<Nodo, ReadError>)
        ensures
            match r {
                Ok(n) => read_spec(nodo.view(), markdown_events_of(text@), config.date_format@)
                    == SpecRead::Read(n.view()),
                Err(ReadError::InvalidElement(m)) => exists|k: int|
                    read_spec(nodo.view(), markdown_events_of(text@), config.date_format@)
                        == SpecRead::Invalid(k) && 0 <= k < markdown_events_of(text@).len() && m@
                        == "Invalid element in frontmatter: "@ + event_text(markdown_events_of(text@)[k]),
                Err(ReadError::Unhandled(_)) => read_spec(
                    nodo.view(),
                    markdown_events_of(text@),
                    config.date_format@,
                ) is Unhandled,
                Err(_) => false,
            },
    {
        let events = markdown_events(text);
        read_events(nodo, &events, config.date_format.as_str())
    }

    /// Appends the canonical markdown text of a nodo.
    pub fn write(&self, nodo: &Nodo, out: &mut String, config: &Config) -> (r: Result<(), WriteError>)
        ensures
            r is Ok,
            final(out)@ == old(out)@ + nodo_text(nodo.view(), config.date_format@),
    {
        write_nodo(out, nodo, config.date_format.as_str());
        Ok(())
    }
}

/// The handler of a file type; markdown is the one there is.
pub fn get_file_handler(ft: &str) -> (r: Markdown)
    requires
        ft@ == "md"@,
{
    Markdown
}

} // verus!
