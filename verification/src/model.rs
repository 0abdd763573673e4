//! What is known of an album's cover, and the record handed to the host.

use vstd::prelude::*;

verus! {

/// The animated covers of an album.
#[derive(Clone, Debug, PartialEq, Eq)]
pub struct Motion {
    /// The square cover.
    pub square: String,
    /// The tall cover, where there is one.
    pub tall: Option<String>,
}

/// What `Motion` says.
pub struct MotionText {
    /// The square cover.
    pub square: Seq<char>,
    /// The tall cover, where there is one.
    pub tall: Option<Seq<char>>,
}

/// The album record of the host.
#[derive(Debug, PartialEq, Eq)]
pub struct AlbumDetails {
    /// A description.
    pub description: Option<String>,
    /// A still cover.
    pub cover_url: Option<String>,
    /// How many tracks the album has.
    pub track_count: Option<u32>,
    /// The square animated cover.
    pub motion_cover_url: Option<String>,
    /// The tall animated cover.
    pub motion_cover_tall_url: Option<String>,
}

/// What `AlbumDetails` says.
pub struct DetailsText {
    /// A description.
    pub description: Option<Seq<char>>,
    /// A still cover.
    pub cover_url: Option<Seq<char>>,
    /// How many tracks the album has.
    pub track_count: Option<u32>,
    /// The square animated cover.
    pub motion_cover_url: Option<Seq<char>>,
    /// The tall animated cover.
    pub motion_cover_tall_url: Option<Seq<char>>,
}

/// The artist record of the host.
#[derive(Debug, PartialEq, Eq)]
pub struct ArtistDetails {
    /// A biography.
    pub bio: Option<String>,
    /// A portrait.
    pub image_url: Option<String>,
    /// Similar artists.
    pub similar: Vec<String>,
}

/// What is stored of an album.
#[derive(Debug, PartialEq, Eq)]
pub enum Cached {
    /// Its covers.
    Motion(Motion),
    /// That it has none.
    Miss,
}

impl DeepView for Motion {
    type V = MotionText;

    open spec fn deep_view(&self) -> MotionText {
        MotionText { square: self.square@, tall: self.tall.deep_view() }
    }
}

impl DeepView for AlbumDetails {
    type V = DetailsText;

    open spec fn deep_view(&self) -> DetailsText {
        DetailsText {
            description: self.description.deep_view(),
            cover_url: self.cover_url.deep_view(),
            track_count: self.track_count,
            motion_cover_url: self.motion_cover_url.deep_view(),
            motion_cover_tall_url: self.motion_cover_tall_url.deep_view(),
        }
    }
}

impl DeepView for Cached {
    type V = Option<MotionText>;

    open spec fn deep_view(&self) -> Option<MotionText> {
        match *self {
            Cached::Motion(m) => Some(m.deep_view()),
            Cached::Miss => None,
        }
    }
}

/// The record for an album whose covers are `found`: nothing but them.
pub open spec fn details_of(found: Option<MotionText>) -> DetailsText {
    DetailsText {
        description: None,
        cover_url: None,
        track_count: None,
        motion_cover_url: match found {
            Some(m) => Some(m.square),
            None => None,
        },
        motion_cover_tall_url: match found {
            Some(m) => m.tall,
            None => None,
        },
    }
}

impl Motion {
    /// The record for an album with these covers.
    pub fn into_details(self) -> (out: AlbumDetails)
        ensures
            out.deep_view() == details_of(Some(self.deep_view())),
    {
        AlbumDetails {
            description: None,
            cover_url: None,
            track_count: None,
            motion_cover_url: Some(self.square),
            motion_cover_tall_url: self.tall,
        }
    }
}

impl Cached {
    /// The record for an album of which this is stored.
    pub fn into_details(self) -> (out: AlbumDetails)
        ensures
            out.deep_view() == details_of(self.deep_view()),
    {
        match self {
            Cached::Motion(m) => m.into_details(),
            Cached::Miss => empty_album(),
        }
    }
}

/// The record for an album without covers.
pub fn empty_album() -> (out: AlbumDetails)
    ensures
        out.deep_view() == details_of(None),
{
    AlbumDetails {
        description: None,
        cover_url: None,
        track_count: None,
        motion_cover_url: None,
        motion_cover_tall_url: None,
    }
}

/// The record of an album holds its covers, each in its own field, and nothing else.
pub proof fn law_details(found: Option<MotionText>)
    ensures
        ({
            let d = details_of(found);
            &&& d.description is None && d.cover_url is None && d.track_count is None
            &&& found is None ==> d.motion_cover_url is None && d.motion_cover_tall_url is None
            &&& found is Some ==> d.motion_cover_url == Some(found.unwrap().square)
                && d.motion_cover_tall_url == found.unwrap().tall
        }),
{
}

} // verus!
