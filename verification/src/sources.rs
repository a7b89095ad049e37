//! What the two outside catalogs return for a book.

use vstd::prelude::*;
use crate::model::{copy_opt, copy_strings, opt_view};
use crate::text::string_views;

verus! {

/// A candidate record from the Google Books catalog.
#[derive(Debug, PartialEq, Eq)]
pub struct GoogleMetadata {
    pub title: Option<String>,
    pub subtitle: Option<String>,
    pub authors: Vec<String>,
    pub publisher: Option<String>,
    pub publish_date: Option<String>,
    pub description: Option<String>,
    pub genres: Vec<String>,
    pub isbn: Option<String>,
}

/// The mathematical view of `GoogleMetadata`.
pub struct GoogleMetadataView {
    pub title: Option<Seq<char>>,
    pub subtitle: Option<Seq<char>>,
    pub authors: Seq<Seq<char>>,
    pub publisher: Option<Seq<char>>,
    pub publish_date: Option<Seq<char>>,
    pub description: Option<Seq<char>>,
    pub genres: Seq<Seq<char>>,
    pub isbn: Option<Seq<char>>,
}

impl View for GoogleMetadata {
    type V = GoogleMetadataView;

    open spec fn view(&self) -> GoogleMetadataView {
        GoogleMetadataView {
            title: opt_view(self.title),
            subtitle: opt_view(self.subtitle),
            authors: string_views(self.authors@),
            publisher: opt_view(self.publisher),
            publish_date: opt_view(self.publish_date),
            description: opt_view(self.description),
            genres: string_views(self.genres@),
            isbn: opt_view(self.isbn),
        }
    }
}

impl Clone for GoogleMetadata {
    fn clone(&self) -> (r: Self)
        ensures
            r@ == self@,
    {
        GoogleMetadata {
            title: copy_opt(&self.title),
            subtitle: copy_opt(&self.subtitle),
            authors: copy_strings(&self.authors),
            publisher: copy_opt(&self.publisher),
            publish_date: copy_opt(&self.publish_date),
            description: copy_opt(&self.description),
            genres: copy_strings(&self.genres),
            isbn: copy_opt(&self.isbn),
        }
    }
}

/// The place of a book in a series, as the Audible catalog gives it.
#[derive(Debug, PartialEq, Eq)]
pub struct AudibleSeries {
    pub name: String,
    pub position: Option<String>,
}

/// The mathematical view of `AudibleSeries`.
pub struct AudibleSeriesView {
    pub name: Seq<char>,
    pub position: Option<Seq<char>>,
}

impl View for AudibleSeries {
    type V = AudibleSeriesView;

    open spec fn view(&self) -> AudibleSeriesView {
        AudibleSeriesView { name: self.name@, position: opt_view(self.position) }
    }
}

impl Clone for AudibleSeries {
    fn clone(&self) -> (r: Self)
        ensures
            r@ == self@,
    {
        AudibleSeries { name: self.name.clone(), position: copy_opt(&self.position) }
    }
}

/// The views of a sequence of series entries.
pub open spec fn series_views(v: Seq<AudibleSeries>) -> Seq<AudibleSeriesView> {
    Seq::new(v.len(), |i: int| v[i]@)
}

/// A candidate record from the Audible catalog.
#[derive(Debug, PartialEq, Eq)]
pub struct AudibleMetadata {
    pub title: Option<String>,
    pub authors: Vec<String>,
    pub narrators: Vec<String>,
    pub series: Vec<AudibleSeries>,
    pub publisher: Option<String>,
    pub release_date: Option<String>,
    pub description: Option<String>,
    pub asin: Option<String>,
}

/// The mathematical view of `AudibleMetadata`.
pub struct AudibleMetadataView {
    pub title: Option<Seq<char>>,
    pub authors: Seq<Seq<char>>,
    pub narrators: Seq<Seq<char>>,
    pub series: Seq<AudibleSeriesView>,
    pub publisher: Option<Seq<char>>,
    pub release_date: Option<Seq<char>>,
    pub description: Option<Seq<char>>,
    pub asin: Option<Seq<char>>,
}

impl View for AudibleMetadata {
    type V = AudibleMetadataView;

    open spec fn view(&self) -> AudibleMetadataView {
        AudibleMetadataView {
            title: opt_view(self.title),
            authors: string_views(self.authors@),
            narrators: string_views(self.narrators@),
            series: series_views(self.series@),
            publisher: opt_view(self.publisher),
            release_date: opt_view(self.release_date),
            description: opt_view(self.description),
            asin: opt_view(self.asin),
        }
    }
}

fn copy_series(v: &Vec<AudibleSeries>) -> (r: Vec<AudibleSeries>)
    ensures
        series_views(r@) == series_views(v@),
{
    let mut r: Vec<AudibleSeries> = Vec::new();
    let mut i: usize = 0;
    while i < v.len()
        invariant
            i <= v.len(),
            series_views(r@) == series_views(v@).take(i as int),
        decreases v.len() - i,
    {
        let ghost before = r@;
        let item = v[i].clone();
        r.push(item);
        assert(series_views(r@) == series_views(before).push(item@));
        assert(series_views(v@).take(i + 1) == series_views(v@).take(i as int).push(
            v@[i as int]@,
        ));
        i += 1;
    }
    assert(series_views(v@).take(v.len() as int) == series_views(v@));
    r
}

impl Clone for AudibleMetadata {
    fn clone(&self) -> (r: Self)
        ensures
            r@ == self@,
    {
        AudibleMetadata {
            title: copy_opt(&self.title),
            authors: copy_strings(&self.authors),
            narrators: copy_strings(&self.narrators),
            series: copy_series(&self.series),
            publisher: copy_opt(&self.publisher),
            release_date: copy_opt(&self.release_date),
            description: copy_opt(&self.description),
            asin: copy_opt(&self.asin),
        }
    }
}

/// The view of an optional Google record.
pub open spec fn google_view(o: Option<GoogleMetadata>) -> Option<GoogleMetadataView> {
    match o {
        Some(g) => Some(g@),
        None => None,
    }
}

/// The view of an optional Audible record.
pub open spec fn audible_view(o: Option<AudibleMetadata>) -> Option<AudibleMetadataView> {
    match o {
        Some(a) => Some(a@),
        None => None,
    }
}

} // verus!
