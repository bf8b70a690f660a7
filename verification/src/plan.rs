//! Plans: the options of a topic that votes can weight. A closed sum
//! type with an explicit discriminant in the stored form; each variant
//! owns its id-derivation rule over its canonical text.
//!
//! Geometric coordinates are plain integers (micro-degrees), and a
//! radius is an unsigned integer: the logic only formats and hashes
//! them, it never does arithmetic on them.

use vstd::prelude::*;

verus! {

use vstd::string::StringSliceAdditionalSpecFns;
use crate::hashing::{spec_content_id, content_id};
use crate::bytes::{
    bytes_of,
    append_bytes,
    spec_dec,
    spec_dec_i64,
    dec_u64,
    dec_i64,
};
use crate::codec::{
    enc_bytes,
    enc_u64,
    enc_i64,
    enc_opt_bytes,
    enc_list,
    enc_pair,
    enc_each,
    lemma_enc_each_push,
    sparse_bytes,
    sparse_u64,
    sparse_i64,
    sparse_opt_bytes,
    sparse_n,
    sparse_list,
    lemma_bytes_rt,
    lemma_u64_rt,
    lemma_i64_rt,
    lemma_opt_bytes_rt,
    lemma_list_rt,
    parse_bytes,
    parse_u64,
    parse_i64,
    parse_opt_bytes,
    emit_bytes,
    emit_u64,
    emit_i64,
    emit_opt_bytes,
    encode_pair,
};
use crate::keyed::Settable;

/// A point, in micro-degrees of latitude and longitude.
#[derive(Debug, PartialEq, Eq, Structural, Clone, Copy)]
pub struct Location {
    pub lat: i64,
    pub lng: i64,
}

/// A circle around a point, radius in meters.
#[derive(Debug, PartialEq, Eq, Structural, Clone, Copy)]
pub struct CircularArea {
    pub lat: i64,
    pub lng: i64,
    pub radius: u64,
}

/// One option within a topic. (The word `option` itself is left to the
/// standard library.)
#[derive(Debug, PartialEq, Eq)]
pub enum Plan {
    Simple(Vec<u8>),
    Long(Vec<u8>, Vec<u8>),
    /// Title and link target.
    Url(Vec<u8>, Vec<u8>),
    /// Link target of the image.
    Image(Vec<u8>),
    LatLng(Option<Vec<u8>>, Location),
    Circle(Option<Vec<u8>>, CircularArea),
    Path(Option<Vec<u8>>, Vec<Location>),
}

#[verifier::ext_equal]
pub enum PlanView {
    Simple(Seq<u8>),
    Long(Seq<u8>, Seq<u8>),
    Url(Seq<u8>, Seq<u8>),
    Image(Seq<u8>),
    LatLng(Option<Seq<u8>>, Location),
    Circle(Option<Seq<u8>>, CircularArea),
    Path(Option<Seq<u8>>, Seq<Location>),
}

pub open spec fn opt_view(o: Option<Vec<u8>>) -> Option<Seq<u8>> {
    match o {
        Option::Some(b) => Option::Some(b@),
        Option::None => Option::None,
    }
}

impl View for Plan {
    type V = PlanView;

    open spec fn view(&self) -> PlanView {
        match self {
            Plan::Simple(x) => PlanView::Simple(x@),
            Plan::Long(x, y) => PlanView::Long(x@, y@),
            Plan::Url(x, y) => PlanView::Url(x@, y@),
            Plan::Image(x) => PlanView::Image(x@),
            Plan::LatLng(name, loc) => PlanView::LatLng(opt_view(*name), *loc),
            Plan::Circle(name, area) => PlanView::Circle(opt_view(*name), *area),
            Plan::Path(name, pts) => PlanView::Path(opt_view(*name), pts@),
        }
    }
}

// ---------------------------------------------------------------------
// canonical text, feeding ids and list items
// ---------------------------------------------------------------------
/// `lat, lng`.
pub open spec fn spec_location_text(loc: Location) -> Seq<u8> {
    spec_dec_i64(loc.lat) + ", ".spec_bytes() + spec_dec_i64(loc.lng)
}

pub fn location_text(loc: &Location) -> (r: Vec<u8>)
    ensures
        r@ == spec_location_text(*loc),
{
    let mut out = dec_i64(loc.lat);
    let sep = bytes_of(", ");
    append_bytes(&mut out, sep.as_slice());
    let lng = dec_i64(loc.lng);
    append_bytes(&mut out, lng.as_slice());
    proof {
        assert(out@ =~= spec_location_text(*loc));
    }
    out
}

/// `lat, lng, radius`.
pub open spec fn spec_area_text(area: CircularArea) -> Seq<u8> {
    spec_dec_i64(area.lat) + ", ".spec_bytes() + spec_dec_i64(area.lng) + ", ".spec_bytes()
        + spec_dec(area.radius as nat)
}

pub fn area_text(area: &CircularArea) -> (r: Vec<u8>)
    ensures
        r@ == spec_area_text(*area),
{
    let mut out = dec_i64(area.lat);
    let sep = bytes_of(", ");
    append_bytes(&mut out, sep.as_slice());
    let lng = dec_i64(area.lng);
    append_bytes(&mut out, lng.as_slice());
    append_bytes(&mut out, sep.as_slice());
    let radius = dec_u64(area.radius);
    append_bytes(&mut out, radius.as_slice());
    proof {
        assert(out@ =~= spec_area_text(*area));
    }
    out
}

/// The points of a path, each as `lat, lng` closed by `;`.
pub open spec fn spec_path_text(pts: Seq<Location>) -> Seq<u8>
    decreases pts.len(),
{
    if pts.len() == 0 {
        Seq::empty()
    } else {
        spec_path_text(pts.drop_last()) + spec_location_text(pts.last()) + ";".spec_bytes()
    }
}

pub fn path_text(pts: &Vec<Location>) -> (r: Vec<u8>)
    ensures
        r@ == spec_path_text(pts@),
{
    let n = pts.len();
    let mut out: Vec<u8> = Vec::new();
    let mut i: usize = 0;
    proof {
        assert(out@ =~= spec_path_text(pts@.take(0)));
    }
    while i < n
        invariant
            n == pts@.len(),
            i <= n,
            out@ == spec_path_text(pts@.take(i as int)),
        decreases n - i,
    {
        let loc = pts[i];
        let text = location_text(&loc);
        append_bytes(&mut out, text.as_slice());
        let semi = bytes_of(";");
        append_bytes(&mut out, semi.as_slice());
        proof {
            assert(pts@.take(i + 1).drop_last() =~= pts@.take(i as int));
            assert(pts@.take(i + 1).last() == pts@[i as int]);
            assert(out@ =~= spec_path_text(pts@.take(i + 1)));
        }
        i = i + 1;
    }
    proof {
        assert(pts@.take(n as int) =~= pts@);
    }
    out
}

/// The identifying text of a plan: its label, if any, never feeds the
/// id.
pub open spec fn spec_plan_content(v: PlanView) -> Seq<u8> {
    match v {
        PlanView::Simple(x) => x,
        PlanView::Long(x, _y) => x,
        PlanView::Image(x) => x,
        PlanView::Url(x, y) => x + y,
        PlanView::LatLng(_name, loc) => spec_location_text(loc),
        PlanView::Circle(_name, area) => spec_area_text(area),
        PlanView::Path(_name, pts) => spec_path_text(pts),
    }
}

/// The id derived from a plan's identifying text.
pub open spec fn spec_plan_id(v: PlanView) -> Seq<u8> {
    spec_content_id(spec_plan_content(v))
}

impl Plan {
    /// The identifying text of this plan.
    pub fn content(&self) -> (r: Vec<u8>)
        ensures
            r@ == spec_plan_content(self@),
    {
        match self {
            Plan::Simple(x) => vstd::slice::slice_to_vec(x.as_slice()),
            Plan::Long(x, _y) => vstd::slice::slice_to_vec(x.as_slice()),
            Plan::Image(x) => vstd::slice::slice_to_vec(x.as_slice()),
            Plan::Url(x, y) => {
                let mut out = vstd::slice::slice_to_vec(x.as_slice());
                append_bytes(&mut out, y.as_slice());
                out
            },
            Plan::LatLng(_name, loc) => location_text(loc),
            Plan::Circle(_name, area) => area_text(area),
            Plan::Path(_name, pts) => path_text(pts),
        }
    }

    /// The short human-readable label of this plan for the membership
    /// set: the title, the formatted geometry, or the name (empty if
    /// none).
    pub fn label(&self) -> (r: Vec<u8>)
        ensures
            r@ == spec_plan_label(self@),
    {
        match self {
            Plan::Simple(x) => vstd::slice::slice_to_vec(x.as_slice()),
            Plan::Image(x) => vstd::slice::slice_to_vec(x.as_slice()),
            Plan::Long(x, _y) => vstd::slice::slice_to_vec(x.as_slice()),
            Plan::Url(x, _y) => vstd::slice::slice_to_vec(x.as_slice()),
            Plan::LatLng(_name, loc) => location_text(loc),
            Plan::Circle(_name, area) => area_text(area),
            Plan::Path(name, _pts) => match name {
                Option::Some(v) => vstd::slice::slice_to_vec(v.as_slice()),
                Option::None => Vec::new(),
            },
        }
    }
}

/// The membership-set label of a plan.
pub open spec fn spec_plan_label(v: PlanView) -> Seq<u8> {
    match v {
        PlanView::Simple(x) => x,
        PlanView::Image(x) => x,
        PlanView::Long(x, _y) => x,
        PlanView::Url(x, _y) => x,
        PlanView::LatLng(_name, loc) => spec_location_text(loc),
        PlanView::Circle(_name, area) => spec_area_text(area),
        PlanView::Path(name, _pts) => match name {
            Option::Some(v) => v,
            Option::None => Seq::empty(),
        },
    }
}

// ---------------------------------------------------------------------
// stored form
// ---------------------------------------------------------------------
pub const SIMPLE_TAG: u8 = 115;

pub const LONG_TAG: u8 = 108;

pub const URL_TAG: u8 = 117;

pub const IMAGE_TAG: u8 = 105;

pub const LATLNG_TAG: u8 = 103;

pub const CIRCLE_TAG: u8 = 99;

pub const PATH_TAG: u8 = 112;

pub open spec fn enc_location(loc: Location) -> Seq<u8> {
    enc_i64(loc.lat) + enc_i64(loc.lng)
}

pub open spec fn e_location() -> spec_fn(Location) -> Seq<u8> {
    |loc: Location| enc_location(loc)
}

pub open spec fn sparse_location(s: Seq<u8>) -> Option<(Location, Seq<u8>)> {
    match sparse_i64(s) {
        Option::Some((lat, r1)) => match sparse_i64(r1) {
            Option::Some((lng, r2)) => Option::Some((Location { lat, lng }, r2)),
            Option::None => Option::None,
        },
        Option::None => Option::None,
    }
}

pub open spec fn p_location() -> spec_fn(Seq<u8>) -> Option<(Location, Seq<u8>)> {
    |s: Seq<u8>| sparse_location(s)
}

pub open spec fn ok_location() -> spec_fn(Location) -> bool {
    |loc: Location| true
}

/// The canonical stored encoding of a plan: one discriminant byte,
/// then the variant's fields.
pub open spec fn enc_plan(v: PlanView) -> Seq<u8> {
    match v {
        PlanView::Simple(x) => seq![SIMPLE_TAG] + enc_bytes(x),
        PlanView::Long(x, y) => seq![LONG_TAG] + enc_bytes(x) + enc_bytes(y),
        PlanView::Url(x, y) => seq![URL_TAG] + enc_bytes(x) + enc_bytes(y),
        PlanView::Image(x) => seq![IMAGE_TAG] + enc_bytes(x),
        PlanView::LatLng(name, loc) => seq![LATLNG_TAG] + enc_opt_bytes(name) + enc_location(loc),
        PlanView::Circle(name, area) => seq![CIRCLE_TAG] + enc_opt_bytes(name) + enc_i64(area.lat)
            + enc_i64(area.lng) + enc_u64(area.radius),
        PlanView::Path(name, pts) => seq![PATH_TAG] + enc_opt_bytes(name) + enc_list(
            pts,
            e_location(),
        ),
    }
}


/// The parse of a whole byte string as a plan record.
pub open spec fn parse_plan_bytes(s: Seq<u8>) -> Option<PlanView> {
    if s.len() == 0 {
        Option::None
    } else if s[0] == SIMPLE_TAG {
        match sparse_bytes(s.drop_first()) {
            Option::Some((x, r)) => if r.len() == 0 {
                Option::Some(PlanView::Simple(x))
            } else {
                Option::None
            },
            Option::None => Option::None,
        }
    } else if s[0] == LONG_TAG {
        match sparse_bytes(s.drop_first()) {
            Option::Some((x, r1)) => match sparse_bytes(r1) {
                Option::Some((y, r2)) => if r2.len() == 0 {
                    Option::Some(PlanView::Long(x, y))
                } else {
                    Option::None
                },
                Option::None => Option::None,
            },
            Option::None => Option::None,
        }
    } else if s[0] == URL_TAG {
        match sparse_bytes(s.drop_first()) {
            Option::Some((x, r1)) => match sparse_bytes(r1) {
                Option::Some((y, r2)) => if r2.len() == 0 {
                    Option::Some(PlanView::Url(x, y))
                } else {
                    Option::None
                },
                Option::None => Option::None,
            },
            Option::None => Option::None,
        }
    } else if s[0] == IMAGE_TAG {
        match sparse_bytes(s.drop_first()) {
            Option::Some((x, r)) => if r.len() == 0 {
                Option::Some(PlanView::Image(x))
            } else {
                Option::None
            },
            Option::None => Option::None,
        }
    } else if s[0] == LATLNG_TAG {
        match sparse_opt_bytes(s.drop_first()) {
            Option::Some((name, r1)) => match sparse_location(r1) {
                Option::Some((loc, r2)) => if r2.len() == 0 {
                    Option::Some(PlanView::LatLng(name, loc))
                } else {
                    Option::None
                },
                Option::None => Option::None,
            },
            Option::None => Option::None,
        }
    } else if s[0] == CIRCLE_TAG {
        match sparse_opt_bytes(s.drop_first()) {
            Option::Some((name, r1)) => match sparse_i64(r1) {
                Option::Some((lat, r2)) => match sparse_i64(r2) {
                    Option::Some((lng, r3)) => match sparse_u64(r3) {
                        Option::Some((radius, r4)) => if r4.len() == 0 {
                            Option::Some(PlanView::Circle(name, CircularArea { lat, lng, radius }))
                        } else {
                            Option::None
                        },
                        Option::None => Option::None,
                    },
                    Option::None => Option::None,
                },
                Option::None => Option::None,
            },
            Option::None => Option::None,
        }
    } else if s[0] == PATH_TAG {
        match sparse_opt_bytes(s.drop_first()) {
            Option::Some((name, r1)) => match sparse_list(r1, p_location()) {
                Option::Some((pts, r2)) => if r2.len() == 0 {
                    Option::Some(PlanView::Path(name, pts))
                } else {
                    Option::None
                },
                Option::None => Option::None,
            },
            Option::None => Option::None,
        }
    } else {
        Option::None
    }
}

/// The size bounds under which a plan encoding round-trips.
pub open spec fn plan_ok(v: PlanView) -> bool {
    match v {
        PlanView::Simple(x) => x.len() <= u64::MAX,
        PlanView::Long(x, y) => x.len() <= u64::MAX && y.len() <= u64::MAX,
        PlanView::Url(x, y) => x.len() <= u64::MAX && y.len() <= u64::MAX,
        PlanView::Image(x) => x.len() <= u64::MAX,
        PlanView::LatLng(name, _loc) => (name matches Option::Some(b) ==> b.len() <= u64::MAX),
        PlanView::Circle(name, _area) => (name matches Option::Some(b) ==> b.len() <= u64::MAX),
        PlanView::Path(name, pts) => (name matches Option::Some(b) ==> b.len() <= u64::MAX)
            && pts.len() <= u64::MAX,
    }
}

pub proof fn lemma_location_rt(loc: Location, rest: Seq<u8>)
    ensures
        sparse_location(enc_location(loc) + rest) == Option::Some((loc, rest)),
{
    assert(enc_location(loc) + rest =~= enc_i64(loc.lat) + (enc_i64(loc.lng) + rest));
    lemma_i64_rt(loc.lat, enc_i64(loc.lng) + rest);
    lemma_i64_rt(loc.lng, rest);
}

/// A plan record parses back to exactly the value it encoded.
pub proof fn lemma_plan_rt(v: PlanView)
    requires
        plan_ok(v),
    ensures
        parse_plan_bytes(enc_plan(v)) == Option::Some(v),
{
    let s = enc_plan(v);
    let empty = Seq::<u8>::empty();
    match v {
        PlanView::Simple(x) => {
            assert(s.drop_first() =~= enc_bytes(x) + empty);
            lemma_bytes_rt(x, empty);
        },
        PlanView::Long(x, y) => {
            assert(s.drop_first() =~= enc_bytes(x) + (enc_bytes(y) + empty));
            lemma_bytes_rt(x, enc_bytes(y) + empty);
            lemma_bytes_rt(y, empty);
            assert(enc_bytes(y) + empty =~= enc_bytes(y));
        },
        PlanView::Url(x, y) => {
            assert(s[0] == URL_TAG && URL_TAG != SIMPLE_TAG && URL_TAG != LONG_TAG);
            assert(s.drop_first() =~= enc_bytes(x) + (enc_bytes(y) + empty));
            lemma_bytes_rt(x, enc_bytes(y) + empty);
            lemma_bytes_rt(y, empty);
            assert(enc_bytes(y) + empty =~= enc_bytes(y));
        },
        PlanView::Image(x) => {
            assert(s.drop_first() =~= enc_bytes(x) + empty);
            lemma_bytes_rt(x, empty);
        },
        PlanView::LatLng(name, loc) => {
            assert(s.drop_first() =~= enc_opt_bytes(name) + (enc_location(loc) + empty));
            lemma_opt_bytes_rt(name, enc_location(loc) + empty);
            lemma_location_rt(loc, empty);
            assert(enc_location(loc) + empty =~= enc_location(loc));
        },
        PlanView::Circle(name, area) => {
            let t3 = enc_u64(area.radius) + empty;
            let t2 = enc_i64(area.lng) + t3;
            let t1 = enc_i64(area.lat) + t2;
            assert(s.drop_first() =~= enc_opt_bytes(name) + t1);
            lemma_opt_bytes_rt(name, t1);
            lemma_i64_rt(area.lat, t2);
            lemma_i64_rt(area.lng, t3);
            lemma_u64_rt(area.radius, empty);
            assert(enc_u64(area.radius) + empty =~= enc_u64(area.radius));
        },
        PlanView::Path(name, pts) => {
            let t1 = enc_list(pts, e_location()) + empty;
            assert(s.drop_first() =~= enc_opt_bytes(name) + t1);
            lemma_opt_bytes_rt(name, t1);
            assert forall|x: Location, r: Seq<u8>| #[trigger] p_location()(e_location()(x) + r)
                == Option::Some((x, r)) || !ok_location()(x) by {
                lemma_location_rt(x, r);
            }
            lemma_list_rt(pts, empty, e_location(), p_location(), ok_location());
            assert(enc_list(pts, e_location()) + empty =~= enc_list(pts, e_location()));
        },
    }
}

impl Plan {
    /// The canonical bytes of this record.
    pub fn encode(&self) -> (r: Vec<u8>)
        ensures
            r@ == enc_plan(self@),
    {
        let mut out: Vec<u8> = Vec::new();
        match self {
            Plan::Simple(x) => {
                out.push(SIMPLE_TAG);
                emit_bytes(&mut out, x.as_slice());
            },
            Plan::Long(x, y) => {
                out.push(LONG_TAG);
                emit_bytes(&mut out, x.as_slice());
                emit_bytes(&mut out, y.as_slice());
            },
            Plan::Url(x, y) => {
                out.push(URL_TAG);
                emit_bytes(&mut out, x.as_slice());
                emit_bytes(&mut out, y.as_slice());
            },
            Plan::Image(x) => {
                out.push(IMAGE_TAG);
                emit_bytes(&mut out, x.as_slice());
            },
            Plan::LatLng(name, loc) => {
                out.push(LATLNG_TAG);
                emit_opt_bytes(&mut out, name);
                emit_i64(&mut out, loc.lat);
                emit_i64(&mut out, loc.lng);
            },
            Plan::Circle(name, area) => {
                out.push(CIRCLE_TAG);
                emit_opt_bytes(&mut out, name);
                emit_i64(&mut out, area.lat);
                emit_i64(&mut out, area.lng);
                emit_u64(&mut out, area.radius);
            },
            Plan::Path(name, pts) => {
                out.push(PATH_TAG);
                emit_opt_bytes(&mut out, name);
                let n = pts.len();
                emit_u64(&mut out, n as u64);
                let ghost head = seq![PATH_TAG] + enc_opt_bytes(opt_view(*name)) + enc_u64(
                    n as u64,
                );
                let mut i: usize = 0;
                proof {
                    assert(enc_each(pts@.take(0), e_location()) =~= Seq::<u8>::empty());
                    assert(out@ =~= head + enc_each(pts@.take(0), e_location()));
                }
                while i < n
                    invariant
                        n == pts@.len(),
                        i <= n,
                        out@ == head + enc_each(pts@.take(i as int), e_location()),
                    decreases n - i,
                {
                    let loc = pts[i];
                    emit_i64(&mut out, loc.lat);
                    emit_i64(&mut out, loc.lng);
                    proof {
                        lemma_enc_each_push(pts@.take(i as int), pts@[i as int], e_location());
                        assert(pts@.take(i as int).push(pts@[i as int]) =~= pts@.take(i + 1));
                        assert(out@ =~= head + enc_each(pts@.take(i + 1), e_location()));
                    }
                    i = i + 1;
                }
                proof {
                    assert(pts@.take(n as int) =~= pts@);
                }
            },
        }
        proof {
            assert(out@ =~= enc_plan(self@));
        }
        out
    }

    /// Parses a stored byte string as a plan record.
    pub fn decode(data: &[u8]) -> (r: Option<Plan>)
        ensures
            match r {
                Option::Some(p) => parse_plan_bytes(data@) == Option::Some(p@),
                Option::None => parse_plan_bytes(data@) is None,
            },
    {
        if data.len() == 0 {
            return Option::None;
        }
        let tag = data[0];
        proof {
            assert(data@.skip(1) =~= data@.drop_first());
        }
        if tag == SIMPLE_TAG {
            let (x, p1) = match parse_bytes(data, 1) {
                Option::Some(q) => q,
                Option::None => {
                    return Option::None;
                },
            };
            if p1 != data.len() {
                return Option::None;
            }
            assert(data@.skip(p1 as int).len() == 0);
            Option::Some(Plan::Simple(x))
        } else if tag == LONG_TAG {
            let (x, p1) = match parse_bytes(data, 1) {
                Option::Some(q) => q,
                Option::None => {
                    return Option::None;
                },
            };
            let (y, p2) = match parse_bytes(data, p1) {
                Option::Some(q) => q,
                Option::None => {
                    return Option::None;
                },
            };
            if p2 != data.len() {
                return Option::None;
            }
            assert(data@.skip(p2 as int).len() == 0);
            Option::Some(Plan::Long(x, y))
        } else if tag == URL_TAG {
            let (x, p1) = match parse_bytes(data, 1) {
                Option::Some(q) => q,
                Option::None => {
                    return Option::None;
                },
            };
            let (y, p2) = match parse_bytes(data, p1) {
                Option::Some(q) => q,
                Option::None => {
                    return Option::None;
                },
            };
            if p2 != data.len() {
                return Option::None;
            }
            assert(data@.skip(p2 as int).len() == 0);
            Option::Some(Plan::Url(x, y))
        } else if tag == IMAGE_TAG {
            let (x, p1) = match parse_bytes(data, 1) {
                Option::Some(q) => q,
                Option::None => {
                    return Option::None;
                },
            };
            if p1 != data.len() {
                return Option::None;
            }
            assert(data@.skip(p1 as int).len() == 0);
            Option::Some(Plan::Image(x))
        } else if tag == LATLNG_TAG {
            let (name, p1) = match parse_opt_bytes(data, 1) {
                Option::Some(q) => q,
                Option::None => {
                    return Option::None;
                },
            };
            let (lat, p2) = match parse_i64(data, p1) {
                Option::Some(q) => q,
                Option::None => {
                    return Option::None;
                },
            };
            let (lng, p3) = match parse_i64(data, p2) {
                Option::Some(q) => q,
                Option::None => {
                    proof {
                        assert(sparse_location(data@.skip(p1 as int)) is None);
                    }
                    return Option::None;
                },
            };
            if p3 != data.len() {
                return Option::None;
            }
            assert(data@.skip(p3 as int).len() == 0);
            Option::Some(Plan::LatLng(name, Location { lat, lng }))
        } else if tag == CIRCLE_TAG {
            let (name, p1) = match parse_opt_bytes(data, 1) {
                Option::Some(q) => q,
                Option::None => {
                    return Option::None;
                },
            };
            let (lat, p2) = match parse_i64(data, p1) {
                Option::Some(q) => q,
                Option::None => {
                    return Option::None;
                },
            };
            let (lng, p3) = match parse_i64(data, p2) {
                Option::Some(q) => q,
                Option::None => {
                    return Option::None;
                },
            };
            let (radius, p4) = match parse_u64(data, p3) {
                Option::Some(q) => q,
                Option::None => {
                    return Option::None;
                },
            };
            if p4 != data.len() {
                return Option::None;
            }
            assert(data@.skip(p4 as int).len() == 0);
            Option::Some(Plan::Circle(name, CircularArea { lat, lng, radius }))
        } else if tag == PATH_TAG {
            let (name, p1) = match parse_opt_bytes(data, 1) {
                Option::Some(q) => q,
                Option::None => {
                    return Option::None;
                },
            };
            let (n, p2) = match parse_u64(data, p1) {
                Option::Some(q) => q,
                Option::None => {
                    return Option::None;
                },
            };
            let mut pts: Vec<Location> = Vec::new();
            let mut cur: usize = p2;
            let mut i: u64 = 0;
            proof {
                assert(pts@ =~= Seq::<Location>::empty());
            }
            loop
                invariant_except_break
                    i <= n,
                    1 <= cur <= data@.len(),
                    pts@.len() == i,
                    sparse_u64(data@.skip(p1 as int)) == Option::Some((n, data@.skip(p2 as int))),
                    sparse_opt_bytes(data@.skip(1)) == Option::Some(
                        (opt_view(name), data@.skip(p1 as int)),
                    ),
                    sparse_n(data@.skip(p2 as int), n as nat, p_location()) == (match sparse_n(
                        data@.skip(cur as int),
                        (n - i) as nat,
                        p_location(),
                    ) {
                        Option::Some(q) => Option::Some((pts@ + q.0, q.1)),
                        Option::None => Option::None,
                    }),
                ensures
                    1 <= cur <= data@.len(),
                    sparse_opt_bytes(data@.skip(1)) == Option::Some(
                        (opt_view(name), data@.skip(p1 as int)),
                    ),
                    sparse_list(data@.skip(p1 as int), p_location()) == Option::Some(
                        (pts@, data@.skip(cur as int)),
                    ),
                decreases n - i,
            {
                if i == n {
                    proof {
                        assert(pts@ + Seq::<Location>::empty() =~= pts@);
                    }
                    break;
                }
                let (lat, q1) = match parse_i64(data, cur) {
                    Option::Some(q) => q,
                    Option::None => {
                        proof {
                            assert(sparse_location(data@.skip(cur as int)) is None);
                        }
                        return Option::None;
                    },
                };
                let (lng, q2) = match parse_i64(data, q1) {
                    Option::Some(q) => q,
                    Option::None => {
                        proof {
                            assert(sparse_location(data@.skip(cur as int)) is None);
                        }
                        return Option::None;
                    },
                };
                let ghost pre = pts@;
                let ghost cur0 = cur;
                let loc = Location { lat, lng };
                pts.push(loc);
                cur = q2;
                i = i + 1;
                proof {
                    assert(sparse_location(data@.skip(cur0 as int)) == Option::Some(
                        (loc, data@.skip(cur as int)),
                    ));
                    match sparse_n(data@.skip(cur as int), (n - i) as nat, p_location()) {
                        Option::Some(q) => {
                            assert(pre + (seq![loc] + q.0) =~= pts@ + q.0);
                        },
                        Option::None => {},
                    }
                }
            }
            if cur != data.len() {
                return Option::None;
            }
            assert(data@.skip(cur as int).len() == 0);
            Option::Some(Plan::Path(name, pts))
        } else {
            return Option::None;
        }
    }
}

impl Settable for Plan {
    open spec fn spec_domain_prefix() -> Seq<u8> {
        "plan".spec_bytes()
    }

    fn domain_prefix() -> (r: Vec<u8>) {
        bytes_of("plan")
    }

    open spec fn spec_id(&self) -> Seq<u8> {
        spec_plan_id(self@)
    }

    fn id(&self) -> (r: Vec<u8>) {
        let text = self.content();
        content_id(text.as_slice())
    }

    open spec fn spec_list_item(&self) -> Seq<u8> {
        enc_pair(spec_plan_id(self@), spec_plan_label(self@))
    }

    fn list_item(&self) -> (r: Vec<u8>) {
        let id = self.id();
        let label = self.label();
        encode_pair(id.as_slice(), label.as_slice())
    }

    open spec fn spec_encoded(&self) -> Seq<u8> {
        enc_plan(self@)
    }

    fn encoded(&self) -> (r: Vec<u8>) {
        self.encode()
    }
}

} // verus!
