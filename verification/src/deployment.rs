//! Deployments of `/Core`: how they are named, mounted and pulled.
//!
//! A deployment is one versioned, verity-sealed `/Core`: a composefs image plus
//! the content-addressed objects it references, held in an on-disk repository.
//! The repository itself (its objects, mounts and garbage collection) belongs
//! to the caller. What is decided here is which image and which objects to ask
//! for, and what to refuse.

use crate::bootctl::Version;
use crate::text;
use vstd::prelude::*;
use vstd::string::*;

verus! {

/// A staged deployment of `/Core`.
#[derive(Clone, Debug)]
pub struct Deployment {
    pub version: Version,
    /// fs-verity digest of the composefs image, hex. This is the verity root
    /// hash the bootloader/initramfs verify against.
    pub verity_id: String,
}

/// Result of a garbage-collection pass.
#[derive(Clone, Copy, Debug)]
pub struct GcStats {
    pub objects_removed: u64,
    pub bytes_freed: u64,
}

impl Default for GcStats {
    fn default() -> (r: Self)
        ensures
            r == (GcStats { objects_removed: 0, bytes_freed: 0 }),
    {
        GcStats { objects_removed: 0, bytes_freed: 0 }
    }
}

/// Repository image name for a deployment version, e.g. `core-7.0.11`.
pub open spec fn image_name_text(v: Version) -> Seq<char> {
    "core-"@ + v.text()
}

/// Repository image name for a deployment version, e.g. `core-7.0.11`.
pub fn image_name(v: &Version) -> (r: String)
    ensures
        r@ == image_name_text(*v),
        r@ == "core-"@ + text::decimal_text(v.major as nat) + seq!['.'] + text::decimal_text(
            v.minor as nat,
        ) + seq!['.'] + text::decimal_text(v.patch as nat),
{
    let mut out = "core-".to_string();
    out.append(v.to_text().as_str());
    assert(out@ =~= "core-"@ + text::decimal_text(v.major as nat) + seq!['.'] + text::decimal_text(
        v.minor as nat,
    ) + seq!['.'] + text::decimal_text(v.patch as nat));
    out
}

/// Different versions have different image names.
pub proof fn law_image_names_are_distinct(a: Version, b: Version)
    requires
        image_name_text(a) == image_name_text(b),
    ensures
        a == b,
{
    let n = "core-"@.len() as int;
    assert(image_name_text(a).skip(n) =~= a.text());
    assert(image_name_text(b).skip(n) =~= b.text());
    text::lemma_split_dotted(a.major, a.minor, a.patch);
    text::lemma_split_dotted(b.major, b.minor, b.patch);
    let parts = text::split_by(a.text(), text::is_char('.'));
    assert(parts[0] == text::decimal_text(a.major as nat) && parts[0] == text::decimal_text(
        b.major as nat,
    ));
    assert(parts[1] == text::decimal_text(a.minor as nat) && parts[1] == text::decimal_text(
        b.minor as nat,
    ));
    assert(parts[2] == text::decimal_text(a.patch as nat) && parts[2] == text::decimal_text(
        b.patch as nat,
    ));
    text::lemma_decimal_text(a.major as nat);
    text::lemma_decimal_text(b.major as nat);
    text::lemma_decimal_text(a.minor as nat);
    text::lemma_decimal_text(b.minor as nat);
    text::lemma_decimal_text(a.patch as nat);
    text::lemma_decimal_text(b.patch as nat);
}

/// What an image is found under in the repository: its verity hash where it is
/// known, and the alias of its name otherwise.
pub open spec fn mount_key_of(version: Version, verity_id: Seq<char>) -> Seq<char> {
    if verity_id.len() == 0 {
        "refs/"@ + image_name_text(version)
    } else {
        verity_id
    }
}

impl Deployment {
    /// What the deployment's image is found under in the repository.
    pub open spec fn mount_key_text(self) -> Seq<char> {
        mount_key_of(self.version, self.verity_id@)
    }

    /// What the deployment's image is found under in the repository. The entry
    /// by hash is `<hash>`, the alias is `refs/<name>`. Prefer the verity hash
    /// (what the manifest and the kernel command line carry).
    pub fn mount_key(&self) -> (r: String)
        ensures
            r@ == self.mount_key_text(),
            self.verity_id@.len() > 0 ==> r@ == self.verity_id@,
            self.verity_id@.len() == 0 ==> r@ == "refs/"@ + ("core-"@ + self.version.text()),
    {
        if self.verity_id.as_str().is_empty() {
            let mut out = "refs/".to_string();
            out.append(image_name(&self.version).as_str());
            out
        } else {
            self.verity_id.clone()
        }
    }
}

/// The image names of the deployments that a garbage collection must keep.
pub fn kept_names(keep: &[Deployment]) -> (r: Vec<String>)
    ensures
        r@.len() == keep@.len(),
        forall|i: int|
            0 <= i < r@.len() ==> (#[trigger] r@[i])@ == image_name_text(keep@[i].version)
                && r@[i]@ == "core-"@ + keep@[i].version.text(),
{
    let mut r: Vec<String> = Vec::new();
    let mut i: usize = 0;
    while i < keep.len()
        invariant
            i <= keep@.len(),
            r@.len() == i,
            forall|j: int|
                0 <= j < r@.len() ==> (#[trigger] r@[j])@ == image_name_text(keep@[j].version),
        decreases keep.len() - i,
    {
        r.push(image_name(&keep[i].version));
        i = i + 1;
    }
    r
}

// ---- pulling ----

/// What a pull refused.
#[derive(Clone, Copy, Debug, PartialEq, Eq, Structural)]
pub enum Subject {
    Image,
    Object,
}

/// Content whose fs-verity id is not the one that was asked for.
#[derive(Clone, Debug)]
pub struct Refusal {
    pub subject: Subject,
    pub got: String,
    pub expected: String,
}

/// A refusal with its texts as sequences of characters.
pub struct RefusalView {
    pub subject: Subject,
    pub got: Seq<char>,
    pub expected: Seq<char>,
}

impl View for Refusal {
    type V = RefusalView;

    open spec fn view(&self) -> RefusalView {
        RefusalView { subject: self.subject, got: self.got@, expected: self.expected@ }
    }
}

impl RefusalView {
    /// What the refusal says to a reader.
    pub open spec fn text(self) -> Seq<char> {
        (match self.subject {
            Subject::Image => "image verity mismatch: got "@,
            Subject::Object => "object verity mismatch: got "@,
        }) + self.got + ", expected "@ + self.expected + " (refusing)"@
    }
}

impl Refusal {
    /// What the refusal says to a reader.
    pub fn message(&self) -> (r: String)
        ensures
            r@ == self@.text(),
            self.subject == Subject::Image ==> r@ == "image verity mismatch: got "@ + self.got@
                + ", expected "@ + self.expected@ + " (refusing)"@,
            self.subject == Subject::Object ==> r@ == "object verity mismatch: got "@ + self.got@
                + ", expected "@ + self.expected@ + " (refusing)"@,
    {
        let mut out = match self.subject {
            Subject::Image => "image verity mismatch: got ".to_string(),
            Subject::Object => "object verity mismatch: got ".to_string(),
        };
        out.append(self.got.as_str());
        out.append(", expected ");
        out.append(self.expected.as_str());
        out.append(" (refusing)");
        out
    }
}

/// What a pull waits for.
#[derive(Clone, Copy, Debug, PartialEq, Eq, Structural)]
pub enum Stage {
    /// The import of the image.
    Image,
    /// The list of the objects that the image references.
    Listing,
    /// Whether the next object is in the repository.
    Looking,
    /// The import of the next object.
    Importing,
    /// Nothing: the deployment is complete.
    Finished,
    /// Nothing: something was refused.
    Refused,
}

/// Something that happened in the repository. Ids are in hexadecimal.
pub enum Event {
    /// The image was fetched and imported, and this is its id.
    ImageImported(String),
    /// The image references these objects.
    Listed(Vec<String>),
    /// The object is in the repository, or it is not.
    Found(bool),
    /// The object was fetched and imported, and this is its id.
    ObjectImported(String),
}

/// An event with its texts as sequences of characters.
pub enum EventView {
    ImageImported(Seq<char>),
    Listed(Seq<Seq<char>>),
    Found(bool),
    ObjectImported(Seq<char>),
}

impl View for Event {
    type V = EventView;

    open spec fn view(&self) -> EventView {
        match *self {
            Event::ImageImported(id) => EventView::ImageImported(id@),
            Event::Listed(ids) => EventView::Listed(text::texts(ids@)),
            Event::Found(present) => EventView::Found(present),
            Event::ObjectImported(id) => EventView::ObjectImported(id@),
        }
    }
}

/// What to do next.
pub enum Action {
    /// Fetch the object with this id and import it as an image of this name.
    ImportImage { id: String, name: String },
    /// List the objects that the image with this id references.
    List(String),
    /// Look whether the object with this id is in the repository.
    Look(String),
    /// Fetch the object with this id and import it.
    ImportObject(String),
    /// The deployment is complete.
    Finish(Deployment),
    /// Give the deployment up.
    Refuse(Refusal),
}

/// An action with its texts as sequences of characters.
pub enum ActionView {
    ImportImage { id: Seq<char>, name: Seq<char> },
    List(Seq<char>),
    Look(Seq<char>),
    ImportObject(Seq<char>),
    Finish { version: Version, verity_id: Seq<char> },
    Refuse(RefusalView),
}

impl View for Action {
    type V = ActionView;

    open spec fn view(&self) -> ActionView {
        match *self {
            Action::ImportImage { id, name } => ActionView::ImportImage { id: id@, name: name@ },
            Action::List(id) => ActionView::List(id@),
            Action::Look(id) => ActionView::Look(id@),
            Action::ImportObject(id) => ActionView::ImportObject(id@),
            Action::Finish(d) => ActionView::Finish {
                version: d.version,
                verity_id: d.verity_id@,
            },
            Action::Refuse(refusal) => ActionView::Refuse(refusal@),
        }
    }
}

/// A pull in progress, as a value.
pub struct PullView {
    pub version: Version,
    /// The signed fs-verity id of the image.
    pub expect: Seq<char>,
    pub stage: Stage,
    /// The ids of the objects that the image references.
    pub refs: Seq<Seq<char>>,
    /// How many of them are settled.
    pub next: nat,
    pub fetched: nat,
    pub present: nat,
    pub refusal: Option<RefusalView>,
}

/// A pull that has not begun.
pub open spec fn pull_start(version: Version, expect: Seq<char>) -> PullView {
    PullView {
        version,
        expect,
        stage: Stage::Image,
        refs: Seq::empty(),
        next: 0,
        fetched: 0,
        present: 0,
        refusal: None,
    }
}

impl PullView {
    /// Whether the pull waits for an event of this kind.
    pub open spec fn awaits(self, event: EventView) -> bool {
        match event {
            EventView::ImageImported(_) => self.stage == Stage::Image,
            EventView::Listed(_) => self.stage == Stage::Listing,
            EventView::Found(_) => self.stage == Stage::Looking,
            EventView::ObjectImported(_) => self.stage == Stage::Importing,
        }
    }

    /// The pull with one more object settled.
    pub open spec fn settled(self) -> PullView {
        PullView {
            next: self.next + 1,
            stage: if self.next + 1 == self.refs.len() {
                Stage::Finished
            } else {
                Stage::Looking
            },
            ..self
        }
    }

    /// The pull given up because of content with the wrong id.
    pub open spec fn refused(self, subject: Subject, got: Seq<char>, expected: Seq<char>) -> PullView {
        PullView {
            stage: Stage::Refused,
            refusal: Some(RefusalView { subject, got, expected }),
            ..self
        }
    }

    /// The pull after an event.
    pub open spec fn after(self, event: EventView) -> PullView {
        match event {
            EventView::ImageImported(id) => if id == self.expect {
                PullView { stage: Stage::Listing, ..self }
            } else {
                self.refused(Subject::Image, id, self.expect)
            },
            EventView::Listed(ids) => PullView {
                refs: ids,
                stage: if ids.len() == 0 {
                    Stage::Finished
                } else {
                    Stage::Looking
                },
                ..self
            },
            EventView::Found(present) => if present {
                PullView { present: self.present + 1, ..self.settled() }
            } else {
                PullView { stage: Stage::Importing, ..self }
            },
            EventView::ObjectImported(id) => if id == self.refs[self.next as int] {
                PullView { fetched: self.fetched + 1, ..self.settled() }
            } else {
                self.refused(Subject::Object, id, self.refs[self.next as int])
            },
        }
    }

    /// What is to be done in this state.
    pub open spec fn action(self) -> ActionView {
        match self.stage {
            Stage::Image => ActionView::ImportImage {
                id: self.expect,
                name: image_name_text(self.version),
            },
            Stage::Listing => ActionView::List(self.expect),
            Stage::Looking => ActionView::Look(self.refs[self.next as int]),
            Stage::Importing => ActionView::ImportObject(self.refs[self.next as int]),
            Stage::Finished => ActionView::Finish { version: self.version, verity_id: self.expect },
            Stage::Refused => ActionView::Refuse(self.refusal->0),
        }
    }

    /// What a finished pull reports.
    pub open spec fn summary_text(self) -> Seq<char> {
        "pull "@ + image_name_text(self.version) + ": "@ + text::decimal_text(self.fetched)
            + " fetched, "@ + text::decimal_text(self.present) + " already present, "@
            + text::decimal_text(self.refs.len()) + " total"@
    }

    /// What holds of every pull: the counts add up to the settled objects, an
    /// object is next where one is looked at, all are settled at the end, and a
    /// refusal is there exactly where something was refused.
    pub open spec fn wf(self) -> bool {
        &&& self.fetched + self.present == self.next
        &&& self.next <= self.refs.len()
        &&& self.stage == Stage::Looking || self.stage == Stage::Importing ==> self.next
            < self.refs.len()
        &&& self.stage == Stage::Image || self.stage == Stage::Listing ==> self.refs.len() == 0
        &&& self.stage == Stage::Finished ==> self.next == self.refs.len()
        &&& self.stage == Stage::Refused <==> self.refusal is Some
    }
}

/// A pull of one deployment into a repository. The caller performs an action and
/// hands the event back, until the pull finishes or refuses.
///
/// The image is asked for by its signed fs-verity id and refused unless the id
/// of what was imported is the same, so that a tampered source cannot feed a
/// different image. Each referenced object is likewise compared on import, and
/// only the missing ones are asked for.
pub struct Pull {
    version: Version,
    expect: String,
    stage: Stage,
    refs: Vec<String>,
    next: usize,
    fetched: usize,
    present: usize,
    refusal: Option<Refusal>,
}

impl View for Pull {
    type V = PullView;

    closed spec fn view(&self) -> PullView {
        PullView {
            version: self.version,
            expect: self.expect@,
            stage: self.stage,
            refs: text::texts(self.refs@),
            next: self.next as nat,
            fetched: self.fetched as nat,
            present: self.present as nat,
            refusal: match self.refusal {
                Some(refusal) => Some(refusal@),
                None => None,
            },
        }
    }
}

impl Pull {
    /// A pull of the deployment `version`, whose image has the fs-verity id
    /// `expect_verity`.
    pub fn new(version: Version, expect_verity: &str) -> (r: Self)
        ensures
            r@ == pull_start(version, expect_verity@),
            r@.wf(),
    {
        let r = Pull {
            version,
            expect: expect_verity.to_string(),
            stage: Stage::Image,
            refs: Vec::new(),
            next: 0,
            fetched: 0,
            present: 0,
            refusal: None,
        };
        assert(r@.refs =~= Seq::<Seq<char>>::empty());
        r
    }

    /// What to do next.
    pub fn action(&self) -> (r: Action)
        requires
            self@.wf(),
        ensures
            r@ == self@.action(),
    {
        match self.stage {
            Stage::Image => Action::ImportImage {
                id: self.expect.clone(),
                name: image_name(&self.version),
            },
            Stage::Listing => Action::List(self.expect.clone()),
            Stage::Looking => Action::Look(self.refs[self.next].clone()),
            Stage::Importing => Action::ImportObject(self.refs[self.next].clone()),
            Stage::Finished => Action::Finish(
                Deployment { version: self.version, verity_id: self.expect.clone() },
            ),
            Stage::Refused => Action::Refuse(self.stated_refusal()),
        }
    }

    /// The refusal of a pull that was given up.
    fn stated_refusal(&self) -> (r: Refusal)
        requires
            self.refusal is Some,
        ensures
            r@ == self@.refusal->0,
    {
        match &self.refusal {
            Some(refusal) => Refusal {
                subject: refusal.subject,
                got: refusal.got.clone(),
                expected: refusal.expected.clone(),
            },
            None => Refusal {
                subject: Subject::Image,
                got: String::new(),
                expected: String::new(),
            },
        }
    }

    /// Goes on to the next object, or to the end.
    fn settle(&mut self)
        requires
            old(self).next < old(self).refs@.len(),
        ensures
            final(self)@ == old(self)@.settled(),
    {
        let total = self.refs.len();
        self.next = self.next + 1;
        if self.next == total {
            self.stage = Stage::Finished;
        } else {
            self.stage = Stage::Looking;
        }
    }

    /// Takes an event in, and says what to do next.
    pub fn step(&mut self, event: Event) -> (r: Action)
        requires
            old(self)@.wf(),
            old(self)@.awaits(event@),
        ensures
            final(self)@ == old(self)@.after(event@),
            final(self)@.wf(),
            r@ == final(self)@.action(),
    {
        let total = self.refs.len();
        assert(self@.next <= total);
        match event {
            Event::ImageImported(id) => {
                if text::same_text(id.as_str(), self.expect.as_str()) {
                    self.stage = Stage::Listing;
                } else {
                    let expected = self.expect.clone();
                    self.stage = Stage::Refused;
                    self.refusal = Some(Refusal { subject: Subject::Image, got: id, expected });
                }
            },
            Event::Listed(ids) => {
                if ids.len() == 0 {
                    self.stage = Stage::Finished;
                } else {
                    self.stage = Stage::Looking;
                }
                self.refs = ids;
            },
            Event::Found(present) => {
                if present {
                    self.present = self.present + 1;
                    self.settle();
                } else {
                    self.stage = Stage::Importing;
                }
            },
            Event::ObjectImported(id) => {
                let expected = self.refs[self.next].clone();
                assert(expected@ == self@.refs[self.next as int]);
                if text::same_text(id.as_str(), expected.as_str()) {
                    self.fetched = self.fetched + 1;
                    self.settle();
                } else {
                    self.stage = Stage::Refused;
                    self.refusal = Some(Refusal { subject: Subject::Object, got: id, expected });
                }
            },
        }
        self.action()
    }

    /// What a finished pull reports: how many objects were fetched, how many
    /// were already there, and how many there are.
    pub fn summary(&self) -> (r: String)
        ensures
            r@ == self@.summary_text(),
            r@ == "pull "@ + ("core-"@ + self@.version.text()) + ": "@ + text::decimal_text(
                self@.fetched,
            ) + " fetched, "@ + text::decimal_text(self@.present) + " already present, "@
                + text::decimal_text(self@.refs.len()) + " total"@,
    {
        let mut out = "pull ".to_string();
        out.append(image_name(&self.version).as_str());
        out.append(": ");
        text::push_decimal(&mut out, self.fetched as u64);
        out.append(" fetched, ");
        text::push_decimal(&mut out, self.present as u64);
        out.append(" already present, ");
        text::push_decimal(&mut out, self.refs.len() as u64);
        out.append(" total");
        out
    }
}

// ---- what holds of whole pulls ----

/// The pull after a row of events.
pub open spec fn pull_run(version: Version, expect: Seq<char>, events: Seq<EventView>) -> PullView
    decreases events.len(),
{
    if events.len() == 0 {
        pull_start(version, expect)
    } else {
        pull_run(version, expect, events.drop_last()).after(events.last())
    }
}

/// Whether each event is one that the pull waits for when it comes.
pub open spec fn is_pull_trace(version: Version, expect: Seq<char>, events: Seq<EventView>) -> bool {
    forall|j: int|
        0 <= j < events.len() ==> pull_run(version, expect, #[trigger] events.take(j)).awaits(
            events[j],
        )
}

/// Whether an event settles object `i`: the object was found in the repository,
/// or it was imported under its own id.
pub open spec fn settles(before: PullView, event: EventView, i: int) -> bool {
    &&& before.next == i
    &&& match event {
        EventView::Found(present) => before.stage == Stage::Looking && present,
        EventView::ObjectImported(id) => before.stage == Stage::Importing && id == before.refs[i],
        _ => false,
    }
}

/// Whether some event of the row settles object `i`.
pub open spec fn is_settled(
    version: Version,
    expect: Seq<char>,
    events: Seq<EventView>,
    i: int,
) -> bool {
    exists|j: int|
        0 <= j < events.len() && settles(
            pull_run(version, expect, #[trigger] events.take(j)),
            events[j],
            i,
        )
}

/// How a pull got to where it is.
spec fn is_explained(version: Version, expect: Seq<char>, events: Seq<EventView>) -> bool {
    let s = pull_run(version, expect, events);
    let listed = events.len() >= 2 && events[0] == EventView::ImageImported(expect) && events[1]
        == EventView::Listed(s.refs);
    &&& s.wf()
    &&& s.version == version
    &&& s.expect == expect
    &&& forall|i: int| 0 <= i < s.next ==> #[trigger] is_settled(version, expect, events, i)
    &&& match s.stage {
        Stage::Image => events.len() == 0,
        Stage::Listing => events.len() == 1 && events[0] == EventView::ImageImported(expect),
        Stage::Looking | Stage::Finished => listed && events.len() == 2 + s.present + 2 * s.fetched,
        Stage::Importing => {
            &&& listed
            &&& events.len() == 3 + s.present + 2 * s.fetched
            &&& events.last() == EventView::Found(false)
        },
        Stage::Refused => {
            &&& s.refusal->0.got != s.refusal->0.expected
            &&& match s.refusal->0.subject {
                Subject::Image => {
                    &&& events == seq![EventView::ImageImported(s.refusal->0.got)]
                    &&& s.refusal->0.expected == expect
                },
                Subject::Object => {
                    &&& listed
                    &&& events.len() == 4 + s.present + 2 * s.fetched
                    &&& events.last() == EventView::ObjectImported(s.refusal->0.got)
                    &&& s.next < s.refs.len()
                    &&& s.refusal->0.expected == s.refs[s.next as int]
                },
            }
        },
    }
}

/// Every pull can be explained.
proof fn lemma_explained(version: Version, expect: Seq<char>, events: Seq<EventView>)
    requires
        is_pull_trace(version, expect, events),
    ensures
        is_explained(version, expect, events),
    decreases events.len(),
{
    if events.len() > 0 {
        let n = events.len() - 1;
        let before = events.drop_last();
        let s = pull_run(version, expect, before);
        let t = pull_run(version, expect, events);
        assert(events.take(n) =~= before);
        assert(s.awaits(events.last()));
        assert forall|j: int| 0 <= j < before.len() implies pull_run(
            version,
            expect,
            #[trigger] before.take(j),
        ).awaits(before[j]) by {
            assert(events.take(j) =~= before.take(j));
        }
        lemma_explained(version, expect, before);
        assert forall|i: int| 0 <= i < t.next implies #[trigger] is_settled(
            version,
            expect,
            events,
            i,
        ) by {
            if i < s.next {
                assert(is_settled(version, expect, before, i));
                let j = choose|j: int|
                    0 <= j < before.len() && settles(
                        pull_run(version, expect, #[trigger] before.take(j)),
                        before[j],
                        i,
                    );
                assert(events.take(j) =~= before.take(j));
                assert(events[j] == before[j]);
            } else {
                assert(settles(pull_run(version, expect, events.take(n)), events[n], i));
            }
        }
        if t.stage == Stage::Refused && s.stage == Stage::Image {
            assert(events =~= seq![events[0]]);
        }
    }
}

/// A pull keeps its invariant, its version and the id that it expects.
pub proof fn law_pull_keeps_invariant(version: Version, expect: Seq<char>, events: Seq<EventView>)
    requires
        is_pull_trace(version, expect, events),
    ensures
        pull_run(version, expect, events).wf(),
        pull_run(version, expect, events).version == version,
        pull_run(version, expect, events).expect == expect,
{
    lemma_explained(version, expect, events);
}

/// A pull finishes only with the image that it expects, and only when each
/// object that the image references was found in the repository or imported
/// under its own id. The deployment that comes out is the one asked for.
pub proof fn law_finished_pull_is_verified(
    version: Version,
    expect: Seq<char>,
    events: Seq<EventView>,
)
    requires
        is_pull_trace(version, expect, events),
        pull_run(version, expect, events).stage == Stage::Finished,
    ensures
        events.len() >= 2,
        events[0] == EventView::ImageImported(expect),
        events[1] == EventView::Listed(pull_run(version, expect, events).refs),
        forall|i: int|
            0 <= i < pull_run(version, expect, events).refs.len() ==> #[trigger] is_settled(
                version,
                expect,
                events,
                i,
            ),
        pull_run(version, expect, events).action() == (ActionView::Finish {
            version,
            verity_id: expect,
        }),
{
    lemma_explained(version, expect, events);
}

/// At the end every object was either fetched or already there.
pub proof fn law_pull_counts_every_object(
    version: Version,
    expect: Seq<char>,
    events: Seq<EventView>,
)
    requires
        is_pull_trace(version, expect, events),
        pull_run(version, expect, events).stage == Stage::Finished,
    ensures
        ({
            let s = pull_run(version, expect, events);
            s.fetched + s.present == s.refs.len()
        }),
{
    lemma_explained(version, expect, events);
}

/// A pull asks for an object only after that object was missed.
pub proof fn law_pull_asks_only_for_missing(
    version: Version,
    expect: Seq<char>,
    events: Seq<EventView>,
)
    requires
        is_pull_trace(version, expect, events),
        pull_run(version, expect, events).action() is ImportObject,
    ensures
        ({
            let s = pull_run(version, expect, events);
            &&& events.len() > 0
            &&& events.last() == EventView::Found(false)
            &&& pull_run(version, expect, events.drop_last()).action() == ActionView::Look(
                s.action()->ImportObject_0,
            )
        }),
{
    lemma_explained(version, expect, events);
    let before = events.drop_last();
    assert(events.take(events.len() - 1) =~= before);
    assert(pull_run(version, expect, before).awaits(events.last()));
}

/// A pull refuses exactly what was imported under an id that is not the one
/// asked for: the last event, be it the image or an object.
pub proof fn law_pull_refuses_mismatches(
    version: Version,
    expect: Seq<char>,
    events: Seq<EventView>,
)
    requires
        is_pull_trace(version, expect, events),
        events.len() > 0,
    ensures
        pull_run(version, expect, events).stage == Stage::Refused <==> match events.last() {
            EventView::ImageImported(id) => id != expect,
            EventView::ObjectImported(id) => {
                let before = pull_run(version, expect, events.drop_last());
                id != before.refs[before.next as int]
            },
            _ => false,
        },
{
    let before = events.drop_last();
    assert(events.take(events.len() - 1) =~= before);
    assert(is_pull_trace(version, expect, before)) by {
        assert forall|j: int| 0 <= j < before.len() implies pull_run(
            version,
            expect,
            #[trigger] before.take(j),
        ).awaits(before[j]) by {
            assert(events.take(j) =~= before.take(j));
        }
    }
    lemma_explained(version, expect, before);
    lemma_explained(version, expect, events);
}

/// A pull is over after at most two events for the image and two for each
/// object that it references.
pub proof fn law_pull_ends(version: Version, expect: Seq<char>, events: Seq<EventView>)
    requires
        is_pull_trace(version, expect, events),
    ensures
        events.len() <= 2 + 2 * pull_run(version, expect, events).refs.len(),
{
    lemma_explained(version, expect, events);
}

/// What a pull asks for: first its image, by the signed id and under the version's
/// name, then the image's objects, then each object in turn; at the end it gives
/// the deployment out, or the refusal.
pub proof fn law_pull_asks_in_turn(s: PullView)
    ensures
        s.stage == Stage::Image ==> s.action() == (ActionView::ImportImage {
            id: s.expect,
            name: "core-"@ + s.version.text(),
        }),
        s.stage == Stage::Listing ==> s.action() == ActionView::List(s.expect),
        s.stage == Stage::Looking ==> s.action() == ActionView::Look(s.refs[s.next as int]),
        s.stage == Stage::Importing ==> s.action() == ActionView::ImportObject(
            s.refs[s.next as int],
        ),
        s.stage == Stage::Finished ==> s.action() == (ActionView::Finish {
            version: s.version,
            verity_id: s.expect,
        }),
        s.stage == Stage::Refused ==> s.action() == ActionView::Refuse(s.refusal->0),
{
}

/// A pull begins with its image and nothing settled.
pub proof fn law_pull_begins_with_the_image(version: Version, expect: Seq<char>)
    ensures
        ({
            let s = pull_start(version, expect);
            &&& s.version == version && s.expect == expect
            &&& s.action() == (ActionView::ImportImage {
                id: expect,
                name: "core-"@ + version.text(),
            })
            &&& s.next == 0 && s.fetched == 0 && s.present == 0 && s.refusal is None
        }),
{
}

/// An image is taken exactly if it has the signed id. Nothing is counted for it.
pub proof fn law_pull_takes_the_signed_image(s: PullView, id: Seq<char>)
    ensures
        ({
            let t = s.after(EventView::ImageImported(id));
            &&& t.stage == (if id == s.expect {
                Stage::Listing
            } else {
                Stage::Refused
            })
            &&& id != s.expect ==> t.refusal == Some(
                RefusalView { subject: Subject::Image, got: id, expected: s.expect },
            )
            &&& t.version == s.version && t.expect == s.expect && t.refs == s.refs
            &&& t.next == s.next && t.fetched == s.fetched && t.present == s.present
        }),
{
}

/// Every listed object has to be settled, and where there is none the pull is
/// complete.
pub proof fn law_pull_goes_through_the_list(s: PullView, ids: Seq<Seq<char>>)
    ensures
        ({
            let t = s.after(EventView::Listed(ids));
            &&& t.refs == ids
            &&& t.stage == (if ids.len() == 0 {
                Stage::Finished
            } else {
                Stage::Looking
            })
            &&& t.version == s.version && t.expect == s.expect
            &&& t.next == s.next && t.fetched == s.fetched && t.present == s.present
        }),
{
}

/// An object that is there is counted as present and the next one follows; one
/// that is not there is fetched first.
pub proof fn law_pull_counts_what_is_there(s: PullView)
    ensures
        ({
            let there = s.after(EventView::Found(true));
            let missing = s.after(EventView::Found(false));
            &&& there.next == s.next + 1 && there.present == s.present + 1 && there.fetched
                == s.fetched
            &&& there.stage == (if s.next + 1 == s.refs.len() {
                Stage::Finished
            } else {
                Stage::Looking
            })
            &&& missing.stage == Stage::Importing
            &&& missing.next == s.next && missing.present == s.present && missing.fetched
                == s.fetched
            &&& there.refs == s.refs && missing.refs == s.refs
            &&& there.version == s.version && missing.version == s.version
            &&& there.expect == s.expect && missing.expect == s.expect
        }),
{
}

/// A fetched object is counted exactly if it has the id that was asked for;
/// otherwise it is refused under that id.
pub proof fn law_pull_counts_what_it_fetched(s: PullView, id: Seq<char>)
    requires
        s.next < s.refs.len(),
    ensures
        ({
            let t = s.after(EventView::ObjectImported(id));
            let want = s.refs[s.next as int];
            &&& id == want ==> t.fetched == s.fetched + 1 && t.next == s.next + 1 && t.stage == (if s.next
                + 1 == s.refs.len() {
                Stage::Finished
            } else {
                Stage::Looking
            })
            &&& id != want ==> t.stage == Stage::Refused && t.fetched == s.fetched && t.next == s.next
                && t.refusal == Some(
                RefusalView { subject: Subject::Object, got: id, expected: want },
            )
            &&& t.present == s.present && t.refs == s.refs && t.version == s.version && t.expect
                == s.expect
        }),
{
}

/// What names an image in the repository: its verity hash, or the alias of the
/// version's name where there is none.
pub proof fn law_mount_key(version: Version, verity_id: Seq<char>)
    ensures
        verity_id.len() > 0 ==> mount_key_of(version, verity_id) == verity_id,
        verity_id.len() == 0 ==> mount_key_of(version, verity_id) == "refs/"@ + ("core-"@
            + version.text()),
{
}

/// Events, actions and refusals stand for themselves, with their texts.
pub proof fn law_events_and_actions_stand_for_themselves(e: Event, a: Action, f: Refusal)
    ensures
        match e {
            Event::ImageImported(id) => e@ == EventView::ImageImported(id@),
            Event::Listed(ids) => e@ == EventView::Listed(text::texts(ids@)),
            Event::Found(present) => e@ == EventView::Found(present),
            Event::ObjectImported(id) => e@ == EventView::ObjectImported(id@),
        },
        match a {
            Action::ImportImage { id, name } => a@ == (ActionView::ImportImage {
                id: id@,
                name: name@,
            }),
            Action::List(id) => a@ == ActionView::List(id@),
            Action::Look(id) => a@ == ActionView::Look(id@),
            Action::ImportObject(id) => a@ == ActionView::ImportObject(id@),
            Action::Finish(d) => a@ == (ActionView::Finish {
                version: d.version,
                verity_id: d.verity_id@,
            }),
            Action::Refuse(x) => a@ == ActionView::Refuse(x@),
        },
        f@ == (RefusalView { subject: f.subject, got: f.got@, expected: f.expected@ }),
{
}

/// A pull takes the answer to what it asked for, whatever the answer is, and no
/// other; when it is over it takes none.
pub proof fn law_pull_takes_any_answer(
    s: PullView,
    id: Seq<char>,
    ids: Seq<Seq<char>>,
    present: bool,
)
    ensures
        s.awaits(EventView::ImageImported(id)) <==> s.stage == Stage::Image,
        s.awaits(EventView::Listed(ids)) <==> s.stage == Stage::Listing,
        s.awaits(EventView::Found(present)) <==> s.stage == Stage::Looking,
        s.awaits(EventView::ObjectImported(id)) <==> s.stage == Stage::Importing,
{
}

} // verus!
