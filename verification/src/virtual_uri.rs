//! The identity of a virtual document: one injected region of a host document.

use crate::text::same_text;
use vstd::prelude::*;

verus! {

/// The address under which a downstream server knows one injected region.
#[derive(Debug, PartialEq, Eq)]
pub struct VirtualDocumentUri {
    uri: String,
    language: String,
    region_id: String,
}

/// The mathematical content of a [`VirtualDocumentUri`].
pub struct UriView {
    pub uri: Seq<char>,
    pub language: Seq<char>,
    pub region_id: Seq<char>,
}

impl View for VirtualDocumentUri {
    type V = UriView;

    closed spec fn view(&self) -> UriView {
        UriView { uri: self.uri@, language: self.language@, region_id: self.region_id@ }
    }
}

impl Clone for VirtualDocumentUri {
    fn clone(&self) -> (copy: Self)
        ensures
            copy@ == self@,
    {
        VirtualDocumentUri {
            uri: self.uri.clone(),
            language: self.language.clone(),
            region_id: self.region_id.clone(),
        }
    }
}

impl VirtualDocumentUri {
    /// The region `region_id` in `language`, known downstream as `uri`.
    pub fn new(uri: &str, language: &str, region_id: &str) -> (virtual_uri: Self)
        ensures
            virtual_uri@ == (UriView { uri: uri@, language: language@, region_id: region_id@ }),
    {
        VirtualDocumentUri {
            uri: uri.to_owned(),
            language: language.to_owned(),
            region_id: region_id.to_owned(),
        }
    }

    /// The language of the region.
    pub fn language(&self) -> (language: &str)
        ensures
            language@ == self@.language,
    {
        self.language.as_str()
    }

    /// The identifier of the region.
    pub fn region_id(&self) -> (region_id: &str)
        ensures
            region_id@ == self@.region_id,
    {
        self.region_id.as_str()
    }

    /// The address as it is sent downstream.
    pub fn to_uri_string(&self) -> (uri: String)
        ensures
            uri@ == self@.uri,
    {
        self.uri.clone()
    }

    /// The address as it is sent downstream.
    pub fn uri(&self) -> (uri: &str)
        ensures
            uri@ == self@.uri,
    {
        self.uri.as_str()
    }

    /// Whether this is the document with the given address.
    pub fn is_at(&self, uri: &str) -> (same: bool)
        ensures
            same == (self@.uri == uri@),
    {
        same_text(self.uri.as_str(), uri)
    }
}

} // verus!
