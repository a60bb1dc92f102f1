//! What the identity store does with the identity messages of other
//! identities: what it pushes when asked, how it takes an identity it is
//! sent into its cache, what it then announces and which profile images it
//! fetches, and which images it keeps. Pushing, fetching and storing images
//! are the caller's part.
use crate::cache::{got, inserted, IdentityCache};
use crate::error::Error;
use crate::identity::{
    differs, did_well_formed, verify_outcome, IdentityDocument, IdentityDocumentView, IdentityStatus, Platform,
};
use crate::page::opt_view;
use vstd::prelude::*;

verus! {

/// Which identity updates are announced.
#[derive(PartialEq, Eq, Structural, Clone, Copy, Debug)]
pub enum UpdateEvents {
    Enabled,
    FriendsOnly,
    Disabled,
}

/// What another identity asks for: the identity, or profile images (by the
/// text of their content ids).
pub enum RequestOption {
    Identity,
    Image { banner: Option<String>, picture: Option<String> },
}

/// What is pushed to the identity that asked.
pub enum IdentityPush {
    Identity,
    Banner(String),
    Picture(String),
}

pub enum PushView {
    Identity,
    Banner(Seq<char>),
    Picture(Seq<char>),
}

pub open spec fn push_view(p: IdentityPush) -> PushView {
    match p {
        IdentityPush::Identity => PushView::Identity,
        IdentityPush::Banner(c) => PushView::Banner(c@),
        IdentityPush::Picture(c) => PushView::Picture(c@),
    }
}

pub open spec fn pushes_view(s: Seq<IdentityPush>) -> Seq<PushView> {
    Seq::new(s.len(), |i: int| push_view(s[i]))
}

/// Answers a request: the identity, or the banner and then the picture
/// asked for.
pub fn answer_identity_request(option: &RequestOption) -> (r: Vec<IdentityPush>)
    ensures
        pushes_view(r@) == match option {
            RequestOption::Identity => seq![PushView::Identity],
            RequestOption::Image { banner, picture } => match (opt_view(*banner), opt_view(*picture)) {
                (Some(b), Some(p)) => seq![PushView::Banner(b), PushView::Picture(p)],
                (Some(b), None) => seq![PushView::Banner(b)],
                (None, Some(p)) => seq![PushView::Picture(p)],
                (None, None) => Seq::empty(),
            },
        },
{
    let mut out: Vec<IdentityPush> = Vec::new();
    match option {
        RequestOption::Identity => {
            out.push(IdentityPush::Identity);
        },
        RequestOption::Image { banner, picture } => {
            if let Some(b) = banner {
                out.push(IdentityPush::Banner(b.clone()));
            }
            if let Some(p) = picture {
                out.push(IdentityPush::Picture(p.clone()));
            }
        },
    }
    assert(pushes_view(out@) =~= match option {
        RequestOption::Identity => seq![PushView::Identity],
        RequestOption::Image { banner, picture } => match (opt_view(*banner), opt_view(*picture)) {
            (Some(b), Some(p)) => seq![PushView::Banner(b), PushView::Picture(p)],
            (Some(b), None) => seq![PushView::Banner(b)],
            (None, Some(p)) => seq![PushView::Picture(p)],
            (None, None) => Seq::empty(),
        },
    });
    out
}

/// How a received identity was taken: it is this node's own; it was not
/// cached before; or it was, as `previous`, and `changed` tells whether
/// the new one shows a change.
pub enum Received {
    Own,
    New,
    Known { previous: IdentityDocument, changed: bool },
}

/// The text of the error for an identity sent by another one.
pub open spec fn mismatch() -> Seq<char> {
    "Payload doesnt match identity"@
}

/// What taking `doc`, sent by `sender`, may give: it must be the sender's
/// own and check out; this node's own identity (`own`) is left alone;
/// otherwise what was cached of it is read, and `doc` goes into the cache.
pub open spec fn take_outcome<G: Fn(&IdentityDocument, &Vec<u8>) -> bool>(
    check: G,
    before: Map<Seq<char>, IdentityDocumentView>,
    sender: Seq<char>,
    doc: IdentityDocumentView,
    own: Option<Seq<char>>,
    after: Map<Seq<char>, IdentityDocumentView>,
    r: Result<Received, Error>,
) -> bool {
    if doc.did != sender {
        r matches Err(Error::OtherWithContext(t)) && t@ == mismatch() && after == before
    } else {
        exists|v: Result<(), Error>|
            #[trigger] verify_outcome(check, doc, v) && match v {
                Err(e) => r == Err::<Received, Error>(e) && after == before,
                Ok(()) => if own == Some(doc.did) {
                    r matches Ok(Received::Own) && after == before
                } else {
                    exists|g: Result<IdentityDocument, Error>, ins: Result<Option<IdentityDocument>, Error>|
                        #[trigger] got(check, before, doc.did, g) && #[trigger] inserted(check, before, doc, after, ins)
                            && match ins {
                            Err(e) => r == Err::<Received, Error>(e),
                            Ok(_) => match g {
                                Ok(p) => r matches Ok(Received::Known { previous, changed }) && previous@ == p@
                                    && differs(check, p@, doc, changed),
                                Err(_) => r matches Ok(Received::New),
                            },
                        }
                },
            }
    }
}

/// Takes the identity `doc` that `sender` sent (see `take_outcome`).
pub fn take_identity<G: Fn(&IdentityDocument, &Vec<u8>) -> bool>(
    cache: &mut IdentityCache,
    sender: &String,
    doc: &IdentityDocument,
    own: &Option<String>,
    check: &G,
) -> (r: Result<Received, Error>)
    requires
        old(cache).inv(),
        did_well_formed(doc.did@),
        forall|p: &IdentityDocument, s: &Vec<u8>| call_requires(*check, (p, s)),
    ensures
        final(cache).inv(),
        take_outcome(*check, old(cache)@, sender@, doc@, opt_view(*own), final(cache)@, r),
{
    if doc.did != *sender {
        return Err(Error::OtherWithContext(String::from_str("Payload doesnt match identity")));
    }
    let v = doc.verify(check);
    if let Err(e) = v {
        return Err(e);
    }
    if let Some(o) = own {
        if *o == doc.did {
            return Ok(Received::Own);
        }
    }
    let g = cache.get(&doc.did, check);
    let ins = cache.insert(doc, check);
    if let Err(e) = ins {
        return Err(e);
    }
    match g {
        Ok(previous) => {
            proof {
                assert(did_well_formed(doc.did@));
            }
            let changed = previous.different(doc, check);
            Ok(Received::Known { previous, changed })
        },
        Err(_) => Ok(Received::New),
    }
}

/// How a profile image is fetched: asked of the identity that sent the
/// document (`required`: a failure to ask fails the whole), or fetched
/// through the block exchange, announcing an update once it is in when
/// `announce`.
pub enum ImageFetch {
    Request { banner: Option<String>, picture: Option<String>, required: bool },
    Bitswap { cid: String, announce: bool },
}

pub enum FetchView {
    Request { banner: Option<Seq<char>>, picture: Option<Seq<char>>, required: bool },
    Bitswap { cid: Seq<char>, announce: bool },
}

pub open spec fn fetch_view(f: ImageFetch) -> FetchView {
    match f {
        ImageFetch::Request { banner, picture, required } => FetchView::Request {
            banner: opt_view(banner),
            picture: opt_view(picture),
            required,
        },
        ImageFetch::Bitswap { cid, announce } => FetchView::Bitswap { cid: cid@, announce },
    }
}

pub open spec fn fetches_view(s: Seq<ImageFetch>) -> Seq<FetchView> {
    Seq::new(s.len(), |i: int| fetch_view(s[i]))
}

/// What follows taking an identity: whether its sender goes into discovery
/// (when it is not there), whether an update is announced now, and the
/// images to fetch, in order.
pub struct IdentityUpdatePlan {
    pub discover: bool,
    pub announce: bool,
    pub fetch: Vec<ImageFetch>,
}

/// Whether updates of an identity are announced.
pub open spec fn announced(update_events: UpdateEvents, is_friend: bool) -> bool {
    update_events == UpdateEvents::Enabled || (update_events == UpdateEvents::FriendsOnly && is_friend)
}

/// The fetch of one changed image: asked for (not required), or fetched
/// through the block exchange.
pub open spec fn changed_image(
    cid: Seq<char>,
    banner: bool,
    bitswap: bool,
    announce: bool,
) -> FetchView {
    if bitswap {
        FetchView::Bitswap { cid, announce }
    } else if banner {
        FetchView::Request { banner: Some(cid), picture: None, required: false }
    } else {
        FetchView::Request { banner: None, picture: Some(cid), required: false }
    }
}

/// The fetches of the images of a changed identity: its picture, then its
/// banner, each when it is set and differs from the one before.
pub open spec fn changed_fetches(
    previous: IdentityDocumentView,
    doc: IdentityDocumentView,
    bitswap: bool,
    announce: bool,
) -> Seq<FetchView> {
    let pic = doc.metadata.profile_picture;
    let ban = doc.metadata.profile_banner;
    (if pic is Some && previous.metadata.profile_picture != pic {
        seq![changed_image(pic.unwrap(), false, bitswap, announce)]
    } else {
        Seq::empty()
    }) + (if ban is Some && previous.metadata.profile_banner != ban {
        seq![changed_image(ban.unwrap(), true, bitswap, announce)]
    } else {
        Seq::empty()
    })
}

/// The fetches of the images of a newly cached identity, when its updates
/// are announced and it has images: one request for both, or each set image
/// through the block exchange (picture first), announced once in.
pub open spec fn new_fetches(doc: IdentityDocumentView, bitswap: bool) -> Seq<FetchView> {
    let pic = doc.metadata.profile_picture;
    let ban = doc.metadata.profile_banner;
    if !bitswap {
        seq![FetchView::Request { banner: ban, picture: pic, required: true }]
    } else {
        (if pic is Some {
            seq![FetchView::Bitswap { cid: pic.unwrap(), announce: true }]
        } else {
            Seq::empty()
        }) + (if ban is Some {
            seq![FetchView::Bitswap { cid: ban.unwrap(), announce: true }]
        } else {
            Seq::empty()
        })
    }
}

/// What follows taking `doc` as `received`: nothing for this node's own;
/// otherwise its sender goes into discovery unless images are excluded.
/// A known identity that changed is announced as configured and its changed
/// images fetched; a new one is announced when updates are enabled, and
/// its images fetched when its updates are announced.
pub open spec fn planned(
    received: Received,
    doc: IdentityDocumentView,
    update_events: UpdateEvents,
    bitswap: bool,
    exclude_images: bool,
    is_friend: bool,
    p: IdentityUpdatePlan,
) -> bool {
    let e = announced(update_events, is_friend);
    match received {
        Received::Own => !p.discover && !p.announce && p.fetch@.len() == 0,
        Received::Known { previous, changed } => {
            &&& p.discover == !exclude_images
            &&& p.announce == (changed && e)
            &&& fetches_view(p.fetch@) == if changed && !exclude_images {
                changed_fetches(previous@, doc, bitswap, e)
            } else {
                Seq::empty()
            }
        },
        Received::New => {
            &&& p.discover == !exclude_images
            &&& p.announce == (update_events == UpdateEvents::Enabled)
            &&& fetches_view(p.fetch@) == if !exclude_images && e && (doc.metadata.profile_picture is Some
                || doc.metadata.profile_banner is Some) {
                new_fetches(doc, bitswap)
            } else {
                Seq::empty()
            }
        },
    }
}

fn copy_opt(o: &Option<String>) -> (r: Option<String>)
    ensures
        opt_view(r) == opt_view(*o),
{
    match o {
        Some(s) => Some(s.clone()),
        None => None,
    }
}

fn opt_eq(a: &Option<String>, b: &Option<String>) -> (r: bool)
    ensures
        r == (opt_view(*a) == opt_view(*b)),
{
    match (a, b) {
        (Some(x), Some(y)) => *x == *y,
        (None, None) => true,
        _ => false,
    }
}

fn image_fetch(cid: &String, banner: bool, bitswap: bool, announce: bool) -> (r: ImageFetch)
    ensures
        fetch_view(r) == changed_image(cid@, banner, bitswap, announce),
{
    if bitswap {
        ImageFetch::Bitswap { cid: cid.clone(), announce }
    } else if banner {
        ImageFetch::Request { banner: Some(cid.clone()), picture: None, required: false }
    } else {
        ImageFetch::Request { banner: None, picture: Some(cid.clone()), required: false }
    }
}

/// Decides what follows taking `doc` as `received` (see `planned`).
pub fn identity_update_plan(
    received: &Received,
    doc: &IdentityDocument,
    update_events: UpdateEvents,
    fetch_over_bitswap: bool,
    exclude_images: bool,
    is_friend: bool,
) -> (r: IdentityUpdatePlan)
    ensures
        planned(*received, doc@, update_events, fetch_over_bitswap, exclude_images, is_friend, r),
{
    let e = update_events == UpdateEvents::Enabled || (update_events == UpdateEvents::FriendsOnly && is_friend);
    let pic = &doc.metadata.profile_picture;
    let ban = &doc.metadata.profile_banner;
    let mut fetch: Vec<ImageFetch> = Vec::new();
    match received {
        Received::Own => IdentityUpdatePlan { discover: false, announce: false, fetch },
        Received::Known { previous, changed } => {
            if *changed && !exclude_images {
                if let Some(p) = pic {
                    if !opt_eq(&previous.metadata.profile_picture, pic) {
                        fetch.push(image_fetch(p, false, fetch_over_bitswap, e));
                    }
                }
                if let Some(b) = ban {
                    if !opt_eq(&previous.metadata.profile_banner, ban) {
                        fetch.push(image_fetch(b, true, fetch_over_bitswap, e));
                    }
                }
                assert(fetches_view(fetch@) =~= changed_fetches(previous@, doc@, fetch_over_bitswap, e));
            } else {
                assert(fetches_view(fetch@) =~= Seq::<FetchView>::empty());
            }
            IdentityUpdatePlan { discover: !exclude_images, announce: *changed && e, fetch }
        },
        Received::New => {
            if !exclude_images && e && (pic.is_some() || ban.is_some()) {
                if !fetch_over_bitswap {
                    fetch.push(ImageFetch::Request { banner: copy_opt(ban), picture: copy_opt(pic), required: true });
                } else {
                    if let Some(p) = pic {
                        fetch.push(ImageFetch::Bitswap { cid: p.clone(), announce: true });
                    }
                    if let Some(b) = ban {
                        fetch.push(ImageFetch::Bitswap { cid: b.clone(), announce: true });
                    }
                }
                assert(fetches_view(fetch@) =~= new_fetches(doc@, fetch_over_bitswap));
            } else {
                assert(fetches_view(fetch@) =~= Seq::<FetchView>::empty());
            }
            IdentityUpdatePlan {
                discover: !exclude_images,
                announce: update_events == UpdateEvents::Enabled,
                fetch,
            }
        },
    }
}

/// Whether a profile image received from `sender` (by the text of its
/// content id) is kept: the sender's cached document must check out and
/// name it as its picture or banner.
pub fn keep_image<G: Fn(&IdentityDocument, &Vec<u8>) -> bool>(
    cache: &IdentityCache,
    sender: &String,
    cid: &String,
    check: &G,
) -> (r: Result<bool, Error>)
    requires
        cache.inv(),
        forall|p: &IdentityDocument, s: &Vec<u8>| call_requires(*check, (p, s)),
    ensures
        exists|g: Result<IdentityDocument, Error>|
            #[trigger] got(*check, cache@, sender@, g) && match g {
                Err(e) => r == Err::<bool, Error>(e),
                Ok(d) => r == Ok::<bool, Error>(
                    d@.metadata.profile_picture == Some(cid@) || d@.metadata.profile_banner == Some(cid@),
                ),
            },
{
    match cache.get(sender, check) {
        Err(e) => Err(e),
        Ok(d) => {
            let c = Some(cid.clone());
            Ok(opt_eq(&d.metadata.profile_picture, &c) || opt_eq(&d.metadata.profile_banner, &c))
        },
    }
}

/// The presence shown for `did`: this node's own identity shows the status
/// it set (online when none); another one is offline when not connected
/// (`connection`), and otherwise shows the status its cached document sets,
/// or its connection's.
pub fn identity_status_of(
    own: &IdentityDocument,
    did: &String,
    connection: IdentityStatus,
    cached: Option<IdentityStatus>,
) -> (r: IdentityStatus)
    ensures
        own.did@ == did@ ==> r == match own.metadata.status {
            Some(s) => s,
            None => IdentityStatus::Online,
        },
        own.did@ != did@ && connection == IdentityStatus::Offline ==> r == IdentityStatus::Offline,
        own.did@ != did@ && connection != IdentityStatus::Offline ==> r == match cached {
            Some(s) => s,
            None => connection,
        },
{
    if own.did == *did {
        return match own.metadata.status {
            Some(s) => s,
            None => IdentityStatus::Online,
        };
    }
    if connection == IdentityStatus::Offline {
        return IdentityStatus::Offline;
    }
    match cached {
        Some(s) => s,
        None => connection,
    }
}

/// The platform shown for another identity of presence `status`: unknown
/// when it is offline, else the one its cached document sets; without one,
/// the identity is not known.
pub fn identity_platform_of(status: IdentityStatus, cached: Option<Platform>) -> (r: Result<Platform, Error>)
    ensures
        status == IdentityStatus::Offline ==> r == Ok::<Platform, Error>(Platform::Unknown),
        status != IdentityStatus::Offline ==> r == match cached {
            Some(p) => Ok::<Platform, Error>(p),
            None => Err(Error::IdentityDoesntExist),
        },
{
    if status == IdentityStatus::Offline {
        return Ok(Platform::Unknown);
    }
    match cached {
        Some(p) => Ok(p),
        None => Err(Error::IdentityDoesntExist),
    }
}

/// The shortest interval, in milliseconds, between automatic pushes of
/// one's identity.
pub const MIN_AUTO_PUSH_MS: u64 = 300000;

/// The interval, in milliseconds, between automatic pushes of one's
/// identity: the configured one, raised to `MIN_AUTO_PUSH_MS`; that minimum
/// when none is configured.
pub fn auto_push_interval(configured: Option<u64>) -> (ms: u64)
    ensures
        ms == match configured {
            Some(c) => if c < MIN_AUTO_PUSH_MS {
                MIN_AUTO_PUSH_MS
            } else {
                c
            },
            None => MIN_AUTO_PUSH_MS,
        },
{
    match configured {
        Some(c) => if c < MIN_AUTO_PUSH_MS {
            MIN_AUTO_PUSH_MS
        } else {
            c
        },
        None => MIN_AUTO_PUSH_MS,
    }
}

/// What follows a known identity that changed, images not excluded: its
/// picture is fetched exactly when it is set and differs from the previous
/// one, and so is its banner, whatever the previous one was (none, or
/// another); nothing else is fetched. Asked for, each comes as a request of
/// that image alone, not required; through the block exchange, by its cid.
/// An identity that did not change, or whose images are excluded, has
/// nothing fetched.
pub proof fn law_changed_images_are_fetched(
    received: Received,
    doc: IdentityDocumentView,
    update_events: UpdateEvents,
    bitswap: bool,
    exclude_images: bool,
    is_friend: bool,
    p: IdentityUpdatePlan,
)
    requires
        planned(received, doc, update_events, bitswap, exclude_images, is_friend, p),
        received is Known,
    ensures
        ({
            let previous = received->previous@;
            let pic = doc.metadata.profile_picture;
            let ban = doc.metadata.profile_banner;
            let new_pic = pic is Some && previous.metadata.profile_picture != pic;
            let new_ban = ban is Some && previous.metadata.profile_banner != ban;
            let f = fetches_view(p.fetch@);
            &&& !received->changed || exclude_images ==> f.len() == 0
            &&& received->changed && !exclude_images ==> {
                &&& f.len() == (if new_pic { 1int } else { 0int }) + (if new_ban { 1int } else { 0int })
                &&& !bitswap ==> (forall|b: Seq<char>|
                    f.contains(FetchView::Request { banner: Some(b), picture: None, required: false }) <==> (ban
                        == Some(b) && previous.metadata.profile_banner != Some(b)))
                &&& !bitswap ==> (forall|c: Seq<char>|
                    f.contains(FetchView::Request { banner: None, picture: Some(c), required: false }) <==> (pic
                        == Some(c) && previous.metadata.profile_picture != Some(c)))
                &&& bitswap && new_ban ==> f.last() == (FetchView::Bitswap {
                    cid: ban.unwrap(),
                    announce: announced(update_events, is_friend),
                })
                &&& bitswap && new_pic ==> f[0] == (FetchView::Bitswap {
                    cid: pic.unwrap(),
                    announce: announced(update_events, is_friend),
                })
            }
        }),
{
    let previous = received->previous@;
    let pic = doc.metadata.profile_picture;
    let ban = doc.metadata.profile_banner;
    let e = announced(update_events, is_friend);
    let f = fetches_view(p.fetch@);
    if received->changed && !exclude_images {
        let fp = if pic is Some && previous.metadata.profile_picture != pic {
            seq![changed_image(pic.unwrap(), false, bitswap, e)]
        } else {
            Seq::<FetchView>::empty()
        };
        let fb = if ban is Some && previous.metadata.profile_banner != ban {
            seq![changed_image(ban.unwrap(), true, bitswap, e)]
        } else {
            Seq::<FetchView>::empty()
        };
        assert(f == fp + fb);
        if !bitswap {
            assert forall|b: Seq<char>|
                f.contains(FetchView::Request { banner: Some(b), picture: None, required: false }) <==> (ban == Some(b)
                    && previous.metadata.profile_banner != Some(b)) by {
                let x = FetchView::Request { banner: Some(b), picture: None, required: false };
                if ban == Some(b) && previous.metadata.profile_banner != Some(b) {
                    assert(f[f.len() - 1] == x);
                }
                if f.contains(x) {
                    let k = choose|k: int| 0 <= k < f.len() && f[k] == x;
                    if k < fp.len() {
                        assert(fp[k] == x);
                    } else {
                        assert(fb[k - fp.len()] == x);
                    }
                }
            }
            assert forall|c: Seq<char>|
                f.contains(FetchView::Request { banner: None, picture: Some(c), required: false }) <==> (pic == Some(c)
                    && previous.metadata.profile_picture != Some(c)) by {
                let x = FetchView::Request { banner: None, picture: Some(c), required: false };
                if pic == Some(c) && previous.metadata.profile_picture != Some(c) {
                    assert(f[0] == x);
                }
                if f.contains(x) {
                    let k = choose|k: int| 0 <= k < f.len() && f[k] == x;
                    if k < fp.len() {
                        assert(fp[k] == x);
                    } else {
                        assert(fb[k - fp.len()] == x);
                    }
                }
            }
        }
    }
}

/// What follows a newly cached identity: it is announced when updates are
/// enabled; when its updates are announced, images are not excluded and it
/// has a picture or a banner, its images are fetched: one required request
/// for both, or each set one through the block exchange, announced. Nothing
/// follows one's own identity.
pub proof fn law_new_identity_images(
    received: Received,
    doc: IdentityDocumentView,
    update_events: UpdateEvents,
    bitswap: bool,
    exclude_images: bool,
    is_friend: bool,
    p: IdentityUpdatePlan,
)
    requires
        planned(received, doc, update_events, bitswap, exclude_images, is_friend, p),
    ensures
        received is Own ==> !p.announce && !p.discover && p.fetch@.len() == 0,
        received is New ==> {
            let pic = doc.metadata.profile_picture;
            let ban = doc.metadata.profile_banner;
            let f = fetches_view(p.fetch@);
            let wanted = !exclude_images && announced(update_events, is_friend) && (pic is Some || ban is Some);
            &&& p.announce == (update_events == UpdateEvents::Enabled)
            &&& !wanted ==> f.len() == 0
            &&& wanted && !bitswap ==> f == seq![FetchView::Request { banner: ban, picture: pic, required: true }]
            &&& wanted && bitswap ==> f.len() == (if pic is Some { 1int } else { 0int }) + (if ban is Some {
                1int
            } else {
                0int
            })
            &&& wanted && bitswap && pic is Some ==> f[0] == (FetchView::Bitswap { cid: pic.unwrap(), announce: true })
            &&& wanted && bitswap && ban is Some ==> f.last() == (FetchView::Bitswap {
                cid: ban.unwrap(),
                announce: true,
            })
        },
        received matches Received::Known { changed, .. } ==> p.announce == (changed && announced(
            update_events,
            is_friend,
        )),
{
}

} // verus!
