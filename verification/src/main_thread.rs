//! The main thread's rules: settings, what a message from a worker asks for, and where the media
//! are.

use vstd::prelude::*;

use crate::blocks::{BallsBlock, MotionBlock};
use crate::protocol::{PhysicsInit, PhysicsMsg, QualityMsg, RenderMsg};
use crate::shared_pool::PoolBlock;
use crate::stats::StatsRefs;
use crate::text::{decimal_text, join, same, trim_end_slashes};

verus! {

/// Multisampling is on unless the user switched it off.
pub const MSAA_DEFAULT: bool = true;

/// The smoothing pass is on unless the user switched it off.
pub const SMAA_DEFAULT: bool = true;

/// The texture size that is assumed until the render worker reports the real one.
pub const DEFAULT_MAX_TEX: u32 = 8192;

/// Percent of native resolution to start at on a software GPU.
pub const FALLBACK_START_PERCENT: u32 = 50;

/// The most lines that the loading log shows.
pub const LOG_LINES: u32 = 14;

/// What a stored truth value says; nothing unless it is `1` or `0`.
pub open spec fn stored_as(raw: Option<Seq<char>>) -> Option<bool> {
    match raw {
        Some(text) => if text == "1"@ {
            Some(true)
        } else if text == "0"@ {
            Some(false)
        } else {
            None
        },
        None => None,
    }
}

/// What a stored truth value says.
pub fn stored_bool(raw: Option<&str>) -> (value: Option<bool>)
    ensures
        value == stored_as(
            match raw {
                Some(text) => Some(text@),
                None => None,
            },
        ),
        value == Some(true) <==> (raw matches Some(text) && text@ == "1"@),
        value == Some(false) <==> (raw matches Some(text) && text@ == "0"@),
{
    proof {
        only_ones_and_zeros_count(viewed(raw));
    }
    match raw {
        Some(text) => {
            if same(text, "1") {
                Some(true)
            } else if same(text, "0") {
                Some(false)
            } else {
                None
            }
        },
        None => None,
    }
}

/// How a truth value is stored.
pub open spec fn stored_form(value: bool) -> Seq<char> {
    if value {
        "1"@
    } else {
        "0"@
    }
}

/// How a truth value is stored.
pub fn store_bool(value: bool) -> (text: &'static str)
    ensures
        text@ == stored_form(value),
{
    if value {
        "1"
    } else {
        "0"
    }
}

/// What is stored comes back.
pub proof fn stored_bool_comes_back(value: bool)
    ensures
        stored_as(Some(stored_form(value))) == Some(value),
{
    reveal_strlit("1");
    reveal_strlit("0");
    assert("1"@[0] != "0"@[0]);
}

/// A stored text is on exactly when it is `1`, off exactly when it is `0`, and says nothing
/// otherwise, as when nothing is stored.
pub proof fn only_ones_and_zeros_count(raw: Option<Seq<char>>)
    ensures
        stored_as(raw) == Some(true) <==> raw == Some("1"@),
        stored_as(raw) == Some(false) <==> raw == Some("0"@),
        raw is None ==> stored_as(raw) is None,
        stored_form(true) == "1"@,
        stored_form(false) == "0"@,
{
    reveal_strlit("1");
    reveal_strlit("0");
    assert("1"@[0] != "0"@[0]);
}

/// The anti-aliasing toggles.
#[derive(Clone, Copy, Debug, PartialEq, Eq)]
pub struct AaToggles {
    pub msaa: bool,
    pub smaa: bool,
}

impl AaToggles {
    /// The toggles to start with: what was stored, and else the defaults.
    pub fn new(stored_msaa: Option<bool>, stored_smaa: Option<bool>) -> (toggles: AaToggles)
        ensures
            toggles.msaa == (match stored_msaa {
                Some(on) => on,
                None => MSAA_DEFAULT,
            }),
            toggles.smaa == (match stored_smaa {
                Some(on) => on,
                None => SMAA_DEFAULT,
            }),
    {
        AaToggles {
            msaa: match stored_msaa {
                Some(on) => on,
                None => MSAA_DEFAULT,
            },
            smaa: match stored_smaa {
                Some(on) => on,
                None => SMAA_DEFAULT,
            },
        }
    }

    /// One of the toggles was set. The message always carries both.
    pub fn set(&mut self, is_msaa: bool, on: bool) -> (msg: QualityMsg)
        ensures
            *final(self) == (if is_msaa {
                AaToggles { msaa: on, ..*old(self) }
            } else {
                AaToggles { smaa: on, ..*old(self) }
            }),
            msg == (QualityMsg::AntiAlias { msaa: final(self).msaa, smaa: final(self).smaa }),
    {
        if is_msaa {
            self.msaa = on;
        } else {
            self.smaa = on;
        }
        QualityMsg::AntiAlias { msaa: self.msaa, smaa: self.smaa }
    }

    /// The change that brings a renderer that was built with `built` to the toggles; nothing where
    /// they agree.
    pub fn reconcile(&self, built: AaToggles) -> (msg: Option<QualityMsg>)
        ensures
            msg == (if *self == built {
                None
            } else {
                Some(QualityMsg::AntiAlias { msaa: self.msaa, smaa: self.smaa })
            }),
    {
        if self.msaa == built.msaa && self.smaa == built.smaa {
            None
        } else {
            Some(QualityMsg::AntiAlias { msaa: self.msaa, smaa: self.smaa })
        }
    }
}

/// Where the resolution scale starts.
#[derive(Clone, Copy, Debug, PartialEq, Eq)]
pub enum StartScale {
    /// The user's stored choice.
    Stored,
    /// The lower start of a touch device.
    Coarse,
    Native,
}

/// Where the resolution scale starts: the user's choice before everything, then the device.
pub fn initial_scale(has_stored: bool, coarse: bool) -> (start: StartScale)
    ensures
        start == (if has_stored {
            StartScale::Stored
        } else if coarse {
            StartScale::Coarse
        } else {
            StartScale::Native
        }),
{
    if has_stored {
        StartScale::Stored
    } else if coarse {
        StartScale::Coarse
    } else {
        StartScale::Native
    }
}

/// One axis of the backing store: at least one pixel, at most what the GPU allows.
pub open spec fn axis_pixels(pixels: u32, max_tex: u32) -> u32 {
    if pixels < 1 {
        1
    } else if pixels > max_tex {
        max_tex
    } else {
        pixels
    }
}

/// The size of the backing store, from the scaled size of the canvas in device pixels.
pub fn backing(pixels: (u32, u32), max_tex: u32) -> (size: (u32, u32))
    requires
        max_tex >= 1,
    ensures
        size == (axis_pixels(pixels.0, max_tex), axis_pixels(pixels.1, max_tex)),
        1 <= size.0 <= max_tex,
        1 <= size.1 <= max_tex,
        1 <= pixels.0 <= max_tex ==> size.0 == pixels.0,
        1 <= pixels.1 <= max_tex ==> size.1 == pixels.1,
        pixels.0 > max_tex ==> size.0 == max_tex,
        pixels.1 > max_tex ==> size.1 == max_tex,
{
    (backing_axis(pixels.0, max_tex), backing_axis(pixels.1, max_tex))
}

fn backing_axis(pixels: u32, max_tex: u32) -> (n: u32)
    ensures
        n == axis_pixels(pixels, max_tex),
{
    if pixels < 1 {
        1
    } else if pixels > max_tex {
        max_tex
    } else {
        pixels
    }
}

/// Each axis of the backing store is as long as it is asked for where the GPU allows it, and the
/// nearest length that it allows elsewhere: never nothing, never more than the limit.
pub proof fn backing_is_the_nearest_size(pixels: u32, max_tex: u32)
    requires
        max_tex >= 1,
    ensures
        1 <= axis_pixels(pixels, max_tex) <= max_tex,
        1 <= pixels <= max_tex ==> axis_pixels(pixels, max_tex) == pixels,
        pixels == 0 ==> axis_pixels(pixels, max_tex) == 1,
        pixels > max_tex ==> axis_pixels(pixels, max_tex) == max_tex,
{
}

/// What main does about a message.
#[derive(Debug, PartialEq, Eq)]
pub enum MainAction {
    /// Add a line to the loading log.
    Log(String),
    /// Set the status line.
    Status(String),
    /// Take the loading screen away.
    LoadingDone,
    /// Start the physics worker.
    SpawnPhysics(PhysicsInit),
    /// Send an anti-aliasing change to render.
    PostQuality(QualityMsg),
    /// Start lower than the scale was seeded.
    LowerScale,
    /// Send the canvas size to render again.
    PostResize,
    /// Start a pool worker on the pool at `pool`.
    SpawnTaskWorker { pool: usize, index: u32 },
}

/// What main knows of the workers and the settings.
#[derive(Clone, Copy, Debug, PartialEq, Eq)]
pub struct MainState {
    pub toggles: AaToggles,
    /// What the renderer was built with.
    pub built: AaToggles,
    /// The user chose a resolution scale.
    pub user_pref: bool,
    pub max_tex: u32,
    pub refs: StatsRefs,
    /// Where the input block is.
    pub input_ptr: usize,
}

/// An action of which the text is known.
pub open spec fn logs(action: MainAction, text: Seq<char>) -> bool {
    action matches MainAction::Log(line) && line@ == text
}

/// An action that sets the status to the text.
pub open spec fn says(action: MainAction, text: Seq<char>) -> bool {
    action matches MainAction::Status(line) && line@ == text
}

/// A line is what it says, word for word, and goes where it is meant to: a log line is no status
/// and a status is no log line.
pub proof fn lines_carry_their_text(line: String, text: Seq<char>)
    ensures
        logs(MainAction::Log(line), text) <==> line@ == text,
        says(MainAction::Status(line), text) <==> line@ == text,
        !logs(MainAction::Status(line), text),
        !says(MainAction::Log(line), text),
{
}

impl MainState {
    /// What main starts with. The renderer is built with the toggles.
    pub fn new(toggles: AaToggles, user_pref: bool, input_ptr: usize) -> (state: MainState)
        ensures
            state.toggles == toggles,
            state.built == toggles,
            state.user_pref == user_pref,
            state.max_tex == DEFAULT_MAX_TEX,
            state.refs == (StatsRefs { motion: None, balls: None, pool: None }),
            state.input_ptr == input_ptr,
    {
        MainState {
            toggles,
            built: toggles,
            user_pref,
            max_tex: DEFAULT_MAX_TEX,
            refs: StatsRefs::new(),
            input_ptr,
        }
    }

    /// A message came from the render worker. `above_fallback` says whether the resolution scale
    /// is above where a software GPU starts.
    pub fn on_render_msg(&mut self, msg: RenderMsg, above_fallback: bool) -> (actions: Vec<
        MainAction,
    >)
        ensures
            match msg {
                RenderMsg::Progress { message } => {
                    &&& actions@.len() == 1
                    &&& logs(actions@[0], message@)
                    &&& *final(self) == *old(self)
                },
                RenderMsg::PhysicsInit(init) => {
                    &&& actions@.len() == 2
                    &&& logs(actions@[0], "spawning physics worker…"@)
                    &&& actions@[1] == MainAction::SpawnPhysics(
                        PhysicsInit { input_ptr: old(self).input_ptr, ..init },
                    )
                    &&& *final(self) == (MainState {
                        refs: StatsRefs {
                            motion: Some(MotionBlock { at: init.motion_ptr }),
                            balls: Some(BallsBlock { at: init.balls_ptr }),
                            ..old(self).refs
                        },
                        ..*old(self)
                    })
                },
                RenderMsg::Ready => {
                    let agrees = old(self).toggles == old(self).built;
                    &&& actions@.len() == (if agrees {
                        3int
                    } else {
                        4int
                    })
                    &&& logs(actions@[0], "first frames rendered — ready"@)
                    &&& actions@[1] is LoadingDone
                    &&& says(
                        actions@[2],
                        "playing — roll · Space jump · click drops a ball · right-drag orbit"@,
                    )
                    &&& !agrees ==> actions@[3] == MainAction::PostQuality(
                        QualityMsg::AntiAlias {
                            msaa: old(self).toggles.msaa,
                            smaa: old(self).toggles.smaa,
                        },
                    )
                    &&& *final(self) == *old(self)
                },
                RenderMsg::GpuInfo { is_fallback, max_texture_dim } => {
                    let lower = is_fallback && !old(self).user_pref && above_fallback;
                    &&& actions@.len() == (if lower {
                        3int
                    } else {
                        1int
                    })
                    &&& lower ==> actions@[0] is LowerScale && logs(
                        actions@[1],
                        "software GPU detected — starting at "@ + crate::text::decimal(
                            FALLBACK_START_PERCENT as nat,
                        ) + "% resolution"@,
                    )
                    &&& actions@.last() is PostResize
                    &&& *final(self) == (MainState {
                        max_tex: if max_texture_dim > 1 {
                            max_texture_dim
                        } else {
                            1
                        },
                        ..*old(self)
                    })
                },
                RenderMsg::Error { message } => {
                    &&& actions@.len() == 2
                    &&& logs(actions@[0], "ERROR: "@ + message@)
                    &&& says(actions@[1], "render error: "@ + message@)
                    &&& *final(self) == *old(self)
                },
                _ => actions@.len() == 0 && *final(self) == *old(self),
            },
    {
        let mut actions: Vec<MainAction> = Vec::new();
        match msg {
            RenderMsg::Progress { message } => {
                actions.push(MainAction::Log(message));
            },
            RenderMsg::PhysicsInit(init) => {
                actions.push(MainAction::Log(String::from_str("spawning physics worker…")));
                self.refs.motion = Some(MotionBlock { at: init.motion_ptr });
                self.refs.balls = Some(BallsBlock { at: init.balls_ptr });
                actions.push(
                    MainAction::SpawnPhysics(PhysicsInit { input_ptr: self.input_ptr, ..init }),
                );
            },
            RenderMsg::Ready => {
                actions.push(MainAction::Log(String::from_str("first frames rendered — ready")));
                actions.push(MainAction::LoadingDone);
                actions.push(
                    MainAction::Status(
                        String::from_str(
                            "playing — roll · Space jump · click drops a ball · right-drag orbit",
                        ),
                    ),
                );
                if let Some(change) = self.toggles.reconcile(self.built) {
                    actions.push(MainAction::PostQuality(change));
                }
            },
            RenderMsg::GpuInfo { is_fallback, max_texture_dim } => {
                self.max_tex = if max_texture_dim > 1 {
                    max_texture_dim
                } else {
                    1
                };
                if is_fallback && !self.user_pref && above_fallback {
                    actions.push(MainAction::LowerScale);
                    let percent = decimal_text(FALLBACK_START_PERCENT as u64);
                    let mut line = join(
                        "software GPU detected — starting at ",
                        percent.as_str(),
                    );
                    line.append("% resolution");
                    actions.push(MainAction::Log(line));
                }
                actions.push(MainAction::PostResize);
            },
            RenderMsg::Error { message } => {
                actions.push(MainAction::Log(join("ERROR: ", message.as_str())));
                actions.push(MainAction::Status(join("render error: ", message.as_str())));
            },
            _ => {},
        }
        actions
    }

    /// The user chose a resolution scale: from now on it is theirs, and render gets the new size.
    pub fn scale_chosen(&mut self) -> (actions: Vec<MainAction>)
        ensures
            *final(self) == (MainState { user_pref: true, ..*old(self) }),
            actions@ == seq![MainAction::PostResize],
    {
        self.user_pref = true;
        let mut actions: Vec<MainAction> = Vec::new();
        actions.push(MainAction::PostResize);
        actions
    }

    /// A control request came from physics: the pool's workers are started, numbered from one (the
    /// physics thread itself is executor zero).
    pub fn on_physics_msg(&mut self, msg: PhysicsMsg) -> (actions: Vec<MainAction>)
        ensures
            match msg {
                PhysicsMsg::SpawnTaskWorkers { pool, count } => {
                    &&& actions@.len() == count + 1
                    &&& logs(
                        actions@[0],
                        "spawning "@ + crate::text::decimal(count as nat)
                            + " physics task-pool workers…"@,
                    )
                    &&& forall|i: int|
                        1 <= i <= count ==> #[trigger] actions@[i] == (MainAction::SpawnTaskWorker {
                            pool,
                            index: i as u32,
                        })
                    &&& *final(self) == (MainState {
                        refs: StatsRefs {
                            pool: Some((PoolBlock { at: pool }, count)),
                            ..old(self).refs
                        },
                        ..*old(self)
                    })
                },
            },
    {
        match msg {
            PhysicsMsg::SpawnTaskWorkers { pool, count } => {
                let mut actions: Vec<MainAction> = Vec::new();
                let n = decimal_text(count as u64);
                let mut line = join("spawning ", n.as_str());
                line.append(" physics task-pool workers…");
                actions.push(MainAction::Log(line));
                self.refs.pool = Some((PoolBlock { at: pool }, count));
                let ghost first = actions@[0];
                for i in 0..count
                    invariant
                        actions@.len() == i + 1,
                        actions@[0] == first,
                        forall|j: int|
                            1 <= j <= i ==> #[trigger] actions@[j] == (MainAction::SpawnTaskWorker {
                                pool,
                                index: j as u32,
                            }),
                {
                    actions.push(MainAction::SpawnTaskWorker { pool, index: i + 1 });
                }
                actions
            },
        }
    }
}

/// How many of the oldest lines leave the loading log when it shows `count`.
pub fn lines_to_drop(count: u32) -> (n: u32)
    ensures
        n == (if count > LOG_LINES {
            count - LOG_LINES
        } else {
            0
        }),
{
    if count > LOG_LINES {
        count - LOG_LINES
    } else {
        0
    }
}

/// Whether an overlay is shown.
#[derive(Clone, Copy, Debug, PartialEq, Eq)]
pub struct Overlay {
    pub open: bool,
}

impl Overlay {
    /// The close button was clicked.
    pub fn close(&mut self)
        ensures
            !final(self).open,
    {
        self.open = false;
    }

    /// A click on the overlay: it closes only when the backdrop itself was hit.
    pub fn clicked(&mut self, on_backdrop: bool)
        ensures
            final(self).open == (old(self).open && !on_backdrop),
    {
        if on_backdrop {
            self.open = false;
        }
    }

    /// A key went down anywhere: Escape closes.
    pub fn key(&mut self, key: &str)
        ensures
            final(self).open == (old(self).open && key@ != "Escape"@),
    {
        if same(key, "Escape") {
            self.open = false;
        }
    }
}

/// The directory of a path: everything before its last slash, or the whole path where it has none.
pub open spec fn directory(path: Seq<char>) -> Seq<char> {
    match last_slash(path) {
        Some(i) => path.take(i),
        None => path,
    }
}

/// Where the last slash of a path is.
pub open spec fn last_slash(path: Seq<char>) -> Option<int>
    decreases path.len(),
{
    if path.len() == 0 {
        None
    } else if path.last() == '/' {
        Some(path.len() - 1)
    } else {
        last_slash(path.drop_last())
    }
}

/// The directory of a path.
fn directory_of(path: &str) -> (dir: String)
    ensures
        dir@ == directory(path@),
{
    let n: usize = path.unicode_len();
    let mut i: usize = n;
    assert(path@.take(n as int) =~= path@);
    while i > 0
        invariant
            i <= n,
            n == path@.len(),
            last_slash(path@) == last_slash(path@.take(i as int)),
        decreases i,
    {
        proof {
            assert(path@.take(i as int).last() == path@[i - 1]);
            assert(path@.take(i as int).drop_last() =~= path@.take(i - 1));
        }
        if path.get_char(i - 1) == '/' {
            assert(path@.subrange(0, i - 1) =~= path@.take(i - 1));
            return String::from_str(path.substring_char(0, i - 1));
        }
        i = i - 1;
    }
    String::from_str(path)
}

/// The last slash of a path is a slash, and there is none behind it; where there is no last slash
/// the path has none. So the directory is what stands before it, or the whole path.
pub proof fn directory_ends_at_the_last_slash(path: Seq<char>)
    ensures
        last_slash(path) matches Some(i) ==> {
            &&& 0 <= i < path.len()
            &&& path[i] == '/'
            &&& forall|j: int| i < j < path.len() ==> #[trigger] path[j] != '/'
            &&& directory(path) == path.take(i)
        },
        last_slash(path) is None ==> {
            &&& forall|j: int| 0 <= j < path.len() ==> #[trigger] path[j] != '/'
            &&& directory(path) == path
        },
    decreases path.len(),
{
    if path.len() > 0 && path.last() != '/' {
        let rest = path.drop_last();
        directory_ends_at_the_last_slash(rest);
        assert forall|j: int|
            0 <= j < path.len() && (last_slash(path) matches Some(i) ==> j > i) implies
            #[trigger] path[j] != '/' by {
            if j < rest.len() {
                assert(rest[j] != '/');
            }
        }
    }
}

/// Where the media are: what the page's address asks for, then what the build was made with, then
/// the directory that the page is served from; no slash at the end.
pub open spec fn media_base(
    media: Option<Seq<char>>,
    built_in: Option<Seq<char>>,
    origin: Seq<char>,
    path: Seq<char>,
) -> Seq<char> {
    if media is Some && media->0.len() > 0 {
        crate::text::without_end_slashes(media->0)
    } else if built_in is Some && built_in->0.len() > 0 {
        crate::text::without_end_slashes(built_in->0)
    } else {
        crate::text::without_end_slashes(origin) + crate::text::without_end_slashes(
            directory(path),
        )
    }
}

/// A text by its view.
pub open spec fn viewed(text: Option<&str>) -> Option<Seq<char>> {
    match text {
        Some(t) => Some(t@),
        None => None,
    }
}

/// Where the media are. The base does not end in a slash.
pub fn page_base(
    media: Option<&str>,
    built_in: Option<&str>,
    origin: &str,
    path: &str,
) -> (base: String)
    ensures
        base@ == media_base(viewed(media), viewed(built_in), origin@, path@),
        base@.len() > 0 ==> base@.last() != '/',
        media matches Some(m) ==> m@.len() > 0 ==> base@ == crate::text::without_end_slashes(m@),
        (media matches Some(m) ==> m@.len() == 0) ==> (built_in matches Some(b) ==> b@.len() > 0
            ==> base@ == crate::text::without_end_slashes(b@)),
        (media matches Some(m) ==> m@.len() == 0) && (built_in matches Some(b) ==> b@.len() == 0)
            ==> base@ == crate::text::without_end_slashes(origin@)
            + crate::text::without_end_slashes(directory(path@)),
{
    proof {
        base_has_no_end_slash(viewed(media), viewed(built_in), origin@, path@);
    }
    if let Some(media) = media {
        if !media.is_empty() {
            return trim_end_slashes(media);
        }
    }
    if let Some(built_in) = built_in {
        if !built_in.is_empty() {
            return trim_end_slashes(built_in);
        }
    }
    let host = trim_end_slashes(origin);
    let dir = trim_end_slashes(directory_of(path).as_str());
    join(host.as_str(), dir.as_str())
}

/// Wherever the media are, the base does not end in a slash.
pub proof fn base_has_no_end_slash(
    media: Option<Seq<char>>,
    built_in: Option<Seq<char>>,
    origin: Seq<char>,
    path: Seq<char>,
)
    ensures
        ({
            let base = media_base(media, built_in, origin, path);
            base.len() > 0 ==> base.last() != '/'
        }),
{
    if let Some(media) = media {
        crate::text::trimmed_has_no_end_slash(media);
    }
    if let Some(built_in) = built_in {
        crate::text::trimmed_has_no_end_slash(built_in);
    }
    crate::text::trimmed_has_no_end_slash(origin);
    crate::text::trimmed_has_no_end_slash(directory(path));
}

/// A directory does not change when a file name is put behind it: every page of a directory has
/// the same base.
pub proof fn directory_of_a_page(dir: Seq<char>, file: Seq<char>)
    requires
        forall|i: int| 0 <= i < file.len() ==> file[i] != '/',
    ensures
        directory(dir.push('/') + file) == dir,
    decreases file.len(),
{
    let path = dir.push('/') + file;
    if file.len() == 0 {
        assert(path =~= dir.push('/'));
        assert(path.take(path.len() - 1) =~= dir);
    } else {
        let rest = file.drop_last();
        assert(path.drop_last() =~= dir.push('/') + rest);
        assert(path.last() == file.last());
        directory_of_a_page(dir, rest);
        last_slash_is_within(path.drop_last());
        has_slash(dir, rest);
        assert(path.take(last_slash(path)->0) =~= path.drop_last().take(last_slash(path)->0));
    }
}

/// What the page's address asks for comes before what the build was made with, and that before where
/// the page is; what is empty does not count. Every page of a directory finds its media in the same
/// place, behind the origin.
pub proof fn media_are_looked_for_in_order(
    media: Seq<char>,
    built_in: Seq<char>,
    other: Option<Seq<char>>,
    origin: Seq<char>,
    dir: Seq<char>,
    file: Seq<char>,
)
    requires
        media.len() > 0,
        built_in.len() > 0,
        forall|i: int| 0 <= i < file.len() ==> file[i] != '/',
    ensures
        media_base(Some(media), other, origin, dir) == crate::text::without_end_slashes(media),
        media_base(None, Some(built_in), origin, dir) == crate::text::without_end_slashes(built_in),
        media_base(Some(Seq::empty()), other, origin, dir) == media_base(None, other, origin, dir),
        media_base(None, Some(Seq::empty()), origin, dir) == media_base(None, None, origin, dir),
        media_base(None, None, origin, dir.push('/') + file) == crate::text::without_end_slashes(
            origin,
        ) + crate::text::without_end_slashes(dir),
{
    directory_of_a_page(dir, file);
}

/// The last slash lies within the path.
proof fn last_slash_is_within(path: Seq<char>)
    ensures
        last_slash(path) matches Some(i) ==> 0 <= i < path.len(),
    decreases path.len(),
{
    if path.len() > 0 && path.last() != '/' {
        last_slash_is_within(path.drop_last());
    }
}

/// A path with a directory has a slash.
proof fn has_slash(dir: Seq<char>, file: Seq<char>)
    ensures
        last_slash(dir.push('/') + file) is Some,
    decreases file.len(),
{
    let path = dir.push('/') + file;
    if file.len() == 0 {
        assert(path =~= dir.push('/'));
    } else {
        assert(path.drop_last() =~= dir.push('/') + file.drop_last());
        has_slash(dir, file.drop_last());
    }
}

/// A setting survives being stored and read again; a text that was never stored by this is not taken
/// for one.
pub proof fn settings_survive(value: bool, text: &'static str, back: Option<bool>)
    requires
        call_ensures(store_bool, (value,), text),
        call_ensures(stored_bool, (Some(text),), back),
    ensures
        back == Some(value),
{
    only_ones_and_zeros_count(Some(text@));
    stored_bool_comes_back(value);
}

/// The user's stored choice of scale comes before what kind of device it is, and a touch device
/// starts lower only without one.
pub proof fn stored_scale_comes_first(stored: bool, coarse: bool, start: StartScale)
    requires
        call_ensures(initial_scale, (stored, coarse), start),
    ensures
        start is Stored <==> stored,
        start is Coarse <==> !stored && coarse,
        start is Native <==> !stored && !coarse,
{
}

/// A toggle changes its own setting and no other, and the message carries both as they are then. A
/// renderer that was built with other settings is brought to them, and one that agrees is left alone.
pub proof fn toggles_change_one_setting(
    toggles: &mut AaToggles,
    built: AaToggles,
    is_msaa: bool,
    on: bool,
    msg: QualityMsg,
    change: Option<QualityMsg>,
)
    requires
        call_ensures(AaToggles::set, (toggles, is_msaa, on), msg),
        call_ensures(AaToggles::reconcile, (&*final(toggles), built), change),
    ensures
        final(toggles).msaa == (if is_msaa {
            on
        } else {
            old(toggles).msaa
        }),
        final(toggles).smaa == (if is_msaa {
            old(toggles).smaa
        } else {
            on
        }),
        msg == (QualityMsg::AntiAlias { msaa: final(toggles).msaa, smaa: final(toggles).smaa }),
        change is None <==> final(toggles).msaa == built.msaa && final(toggles).smaa == built.smaa,
        change matches Some(m) ==> m == msg,
{
}

/// Without stored settings both kinds of anti-aliasing are on; a stored one counts for itself alone.
pub proof fn settings_start_on(msaa: Option<bool>, smaa: Option<bool>, toggles: AaToggles)
    requires
        call_ensures(AaToggles::new, (msaa, smaa), toggles),
    ensures
        toggles.msaa <==> msaa != Some(false),
        toggles.smaa <==> smaa != Some(false),
{
}

/// The loading log never shows more than fourteen lines, and loses none while it shows no more.
pub proof fn log_stays_short(count: u32, dropped: u32)
    requires
        call_ensures(lines_to_drop, (count,), dropped),
    ensures
        dropped <= count,
        count - dropped <= 14,
        count <= 14 ==> dropped == 0,
        count >= 14 ==> count - dropped == 14,
{
}

/// The backing store of a canvas depends on each axis by itself, and what fits is taken as it is:
/// asking for what was given gives the same again.
pub proof fn backing_fits_at_once(
    pixels: (u32, u32),
    max_tex: u32,
    size: (u32, u32),
    again: (u32, u32),
)
    requires
        max_tex >= 1,
        call_ensures(backing, (pixels, max_tex), size),
        call_ensures(backing, (size, max_tex), again),
    ensures
        again == size,
        1 <= size.0 <= max_tex && 1 <= size.1 <= max_tex,
        1 <= pixels.0 <= max_tex ==> size.0 == pixels.0,
        1 <= pixels.1 <= max_tex ==> size.1 == pixels.1,
        pixels.0 > max_tex ==> size.0 == max_tex,
        pixels.1 > max_tex ==> size.1 == max_tex,
{
}

/// A scale that the user chose is theirs: a software GPU that is found later does not lower it. One
/// that was not chosen is lowered, once, where it is above where such a GPU starts.
pub proof fn chosen_scale_is_kept(
    chosen: &mut MainState,
    found: &mut MainState,
    fresh: &mut MainState,
    dim: u32,
    above: bool,
    at_choice: Vec<MainAction>,
    after_choice: Vec<MainAction>,
    without_choice: Vec<MainAction>,
)
    requires
        call_ensures(MainState::scale_chosen, (chosen,), at_choice),
        *old(found) == *final(chosen),
        call_ensures(
            MainState::on_render_msg,
            (found, RenderMsg::GpuInfo { is_fallback: true, max_texture_dim: dim }, above),
            after_choice,
        ),
        !old(fresh).user_pref,
        call_ensures(
            MainState::on_render_msg,
            (fresh, RenderMsg::GpuInfo { is_fallback: true, max_texture_dim: dim }, above),
            without_choice,
        ),
    ensures
        at_choice@ == seq![MainAction::PostResize],
        after_choice@.len() == 1 && after_choice@[0] is PostResize,
        above <==> without_choice@[0] is LowerScale,
        without_choice@.last() is PostResize,
        final(found).max_tex == final(fresh).max_tex,
        final(found).max_tex >= 1,
        dim >= 1 ==> final(found).max_tex == dim,
{
}

/// The physics worker is started with the input block of main and with everything else as render
/// made it, and the panel then knows where the counters are.
pub proof fn physics_starts_with_the_input_block(
    main: &mut MainState,
    init: PhysicsInit,
    above: bool,
    actions: Vec<MainAction>,
)
    requires
        call_ensures(
            MainState::on_render_msg,
            (main, RenderMsg::PhysicsInit(init), above),
            actions,
        ),
    ensures
        actions@.len() == 2,
        actions@[1] matches MainAction::SpawnPhysics(start) && start.input_ptr == old(
            main,
        ).input_ptr && start.spawn == init.spawn && start.colliders == init.colliders
            && start.motion_ptr == init.motion_ptr && start.balls_ptr == init.balls_ptr,
        final(main).refs.motion == Some(MotionBlock { at: init.motion_ptr }),
        final(main).refs.balls == Some(BallsBlock { at: init.balls_ptr }),
        final(main).refs.pool == old(main).refs.pool,
        final(main).toggles == old(main).toggles,
        final(main).max_tex == old(main).max_tex,
{
}

/// Every pool worker is started once, with its own number: the numbers run from one to the count,
/// all on the pool that was asked for.
pub proof fn workers_are_numbered_from_one(
    main: &mut MainState,
    pool: usize,
    count: u32,
    actions: Vec<MainAction>,
    i: int,
)
    requires
        call_ensures(
            MainState::on_physics_msg,
            (main, PhysicsMsg::SpawnTaskWorkers { pool, count }),
            actions,
        ),
        1 <= i <= count,
    ensures
        actions@.len() == count + 1,
        actions@[0] is Log,
        actions@[i] matches MainAction::SpawnTaskWorker { pool: p, index } && p == pool && index
            == i,
        final(main).refs.pool == Some((PoolBlock { at: pool }, count)),
{
    assert(actions@[i] == (MainAction::SpawnTaskWorker { pool, index: i as u32 }));
}

/// An overlay that is closed stays closed: neither the button, a click nor a key opens it. An open
/// one is closed by the button, by a click on the backdrop and by Escape, and by nothing else.
pub proof fn overlays_only_close(
    by_button: &mut Overlay,
    by_click: &mut Overlay,
    by_key: &mut Overlay,
    on_backdrop: bool,
    key: &str,
)
    requires
        call_ensures(Overlay::close, (by_button,), ()),
        call_ensures(Overlay::clicked, (by_click, on_backdrop), ()),
        call_ensures(Overlay::key, (by_key, key), ()),
    ensures
        !final(by_button).open,
        final(by_click).open ==> old(by_click).open && !on_backdrop,
        old(by_click).open && !on_backdrop ==> final(by_click).open,
        final(by_key).open ==> old(by_key).open,
        old(by_key).open ==> (final(by_key).open <==> key@ != "Escape"@),
{
}

} // verus!
