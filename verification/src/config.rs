use vstd::prelude::*;
use crate::db::queries::opt_str_view;

verus! {

/// `name` (a relative path) appended to `base` as `PathBuf::join` does on
/// Unix: a '/' goes between them unless `base` is empty or already ends with
/// one.
pub open spec fn path_join(base: Seq<char>, name: Seq<char>) -> Seq<char> {
    if base.len() == 0 || base.last() == '/' {
        base + name
    } else {
        base + seq!['/'] + name
    }
}

/// `dir` when the platform reported one, otherwise the fallback text.
pub open spec fn dir_or(dir: Option<Seq<char>>, fallback: Seq<char>) -> Seq<char> {
    match dir {
        Some(d) => d,
        None => fallback,
    }
}

pub open spec fn app_dir_name() -> Seq<char> {
    seq!['g', 'a', 'l', 'l', 'e', 'r', 'y', 'p', 'i']
}

/// The configuration file under a platform configuration directory.
pub open spec fn config_path_from(config_dir: Option<Seq<char>>) -> Seq<char> {
    path_join(
        path_join(dir_or(config_dir, seq!['~', '/', '.', 'c', 'o', 'n', 'f', 'i', 'g']), app_dir_name()),
        seq!['c', 'o', 'n', 'f', 'i', 'g', '.', 't', 'o', 'm', 'l'],
    )
}

/// The application's cache directory under a platform cache directory.
pub open spec fn cache_dir_from(cache_dir: Option<Seq<char>>) -> Seq<char> {
    path_join(dir_or(cache_dir, seq!['~', '/', '.', 'c', 'a', 'c', 'h', 'e']), app_dir_name())
}

pub open spec fn thumbs_name() -> Seq<char> {
    seq!['t', 'h', 'u', 'm', 'b', 's']
}

pub open spec fn db_name() -> Seq<char> {
    seq!['m', 'e', 't', 'a', 'd', 'a', 't', 'a', '.', 'd', 'b']
}

/// Number of thumbnail-generation threads for a machine with `cpus` CPUs:
/// 2 up to four CPUs, 4 beyond.
pub open spec fn thumb_threads_for(cpus: usize) -> usize {
    if cpus <= 4 { 2 } else { 4 }
}

/// Calls `dirs::config_dir`. Its result depends on the user's settings and home directory, so
/// nothing is stated of it.
#[verifier::external_body]
fn platform_config_dir() -> Option<String> {
    match dirs::config_dir() {
        Some(p) => Some(p.to_string_lossy().into_owned()),
        None => None,
    }
}

/// Calls `dirs::cache_dir`. Its result depends on the user's settings and home directory, so
/// nothing is stated of it.
#[verifier::external_body]
fn platform_cache_dir() -> Option<String> {
    match dirs::cache_dir() {
        Some(p) => Some(p.to_string_lossy().into_owned()),
        None => None,
    }
}

/// Calls `num_cpus::get`, which its documentation says always returns at
/// least 1; the count itself depends on the machine.
#[verifier::external_body]
fn cpu_count() -> (r: usize)
    ensures
        r >= 1,
{
    num_cpus::get()
}

/// Appends a relative path component to a path, as `PathBuf::join` does on
/// Unix.
pub fn join_path(base: &str, name: &str) -> (r: String)
    ensures
        r@ == path_join(base@, name@),
{
    let n = base.unicode_len();
    let mut out = String::from_str(base);
    if n > 0 && base.get_char(n - 1) != '/' {
        proof { reveal_strlit("/"); }
        out.append("/");
    }
    out.append(name);
    proof {
        if n > 0 {
            assert(base@.last() == base@[n - 1]);
        }
    }
    out
}

fn dir_or_fallback(dir: Option<String>, fallback: &str) -> (r: String)
    ensures
        r@ == dir_or(
            opt_str_view(dir),
            fallback@,
        ),
{
    match dir {
        Some(d) => d,
        None => String::from_str(fallback),
    }
}

/// The configuration file path under the given platform configuration
/// directory (`~/.config` when there is none).
pub fn config_path_in(config_dir: Option<String>) -> (r: String)
    ensures
        r@ == config_path_from(
            opt_str_view(config_dir),
        ),
{
    proof {
        reveal_strlit("~/.config");
        reveal_strlit("gallerypi");
        reveal_strlit("config.toml");
    }
    let base = dir_or_fallback(config_dir, "~/.config");
    let app = join_path(base.as_str(), "gallerypi");
    join_path(app.as_str(), "config.toml")
}

/// The application's cache directory under the given platform cache
/// directory (`~/.cache` when there is none).
pub fn cache_dir_in(cache_dir: Option<String>) -> (r: String)
    ensures
        r@ == cache_dir_from(
            opt_str_view(cache_dir),
        ),
{
    proof {
        reveal_strlit("~/.cache");
        reveal_strlit("gallerypi");
    }
    let base = dir_or_fallback(cache_dir, "~/.cache");
    join_path(base.as_str(), "gallerypi")
}

/// Path of the configuration file: `gallerypi/config.toml` under the
/// platform configuration directory.
pub fn config_path() -> (r: String)
    ensures
        exists|d: Option<Seq<char>>| r@ == config_path_from(d),
{
    let d = platform_config_dir();
    let ghost dv = opt_str_view(d);
    let r = config_path_in(d);
    assert(r@ == config_path_from(dv));
    r
}

/// The application's cache directory: `gallerypi` under the platform cache
/// directory.
pub fn cache_dir() -> (r: String)
    ensures
        exists|d: Option<Seq<char>>| r@ == cache_dir_from(d),
{
    let d = platform_cache_dir();
    let ghost dv = opt_str_view(d);
    let r = cache_dir_in(d);
    assert(r@ == cache_dir_from(dv));
    r
}

pub open spec fn pictures_fallback() -> Seq<char> {
    seq!['~', '/', 'P', 'i', 'c', 't', 'u', 'r', 'e', 's']
}

/// Directory of the thumbnail files under a platform cache directory.
pub open spec fn thumb_dir_from(cache_dir: Option<Seq<char>>) -> Seq<char> {
    path_join(cache_dir_from(cache_dir), thumbs_name())
}

/// Path of the metadata database under a platform cache directory.
pub open spec fn db_path_from(cache_dir: Option<Seq<char>>) -> Seq<char> {
    path_join(cache_dir_from(cache_dir), db_name())
}

/// The thumbnail directory under the given platform cache directory:
/// `gallerypi/thumbs` (under `~/.cache` when there is none).
pub fn thumb_dir_in(cache_dir: Option<String>) -> (r: String)
    ensures
        r@ == thumb_dir_from(opt_str_view(cache_dir)),
{
    proof { reveal_strlit("thumbs"); }
    let base = cache_dir_in(cache_dir);
    join_path(base.as_str(), "thumbs")
}

/// The metadata database under the given platform cache directory:
/// `gallerypi/metadata.db` (under `~/.cache` when there is none).
pub fn db_path_in(cache_dir: Option<String>) -> (r: String)
    ensures
        r@ == db_path_from(opt_str_view(cache_dir)),
{
    proof { reveal_strlit("metadata.db"); }
    let base = cache_dir_in(cache_dir);
    join_path(base.as_str(), "metadata.db")
}

/// Directory of the thumbnail files.
pub fn thumb_dir() -> (r: String)
    ensures
        exists|d: Option<Seq<char>>| r@ == thumb_dir_from(d),
{
    let d = platform_cache_dir();
    let ghost dv = opt_str_view(d);
    let r = thumb_dir_in(d);
    assert(r@ == thumb_dir_from(dv));
    r
}

/// Path of the metadata database.
pub fn db_path() -> (r: String)
    ensures
        exists|d: Option<Seq<char>>| r@ == db_path_from(d),
{
    let d = platform_cache_dir();
    let ghost dv = opt_str_view(d);
    let r = db_path_in(d);
    assert(r@ == db_path_from(dv));
    r
}

/// The thumbnail directory and the database lie side by side in the
/// application's cache directory: for one platform cache directory both are
/// entries of the same `gallerypi` directory, under different names.
pub proof fn law_thumbs_and_db_share_the_cache_dir(cache_dir: Option<Seq<char>>)
    ensures
        thumb_dir_from(cache_dir) == path_join(cache_dir_from(cache_dir), thumbs_name()),
        db_path_from(cache_dir) == path_join(cache_dir_from(cache_dir), db_name()),
        thumb_dir_from(cache_dir) != db_path_from(cache_dir),
{
    let base = cache_dir_from(cache_dir);
    let t = thumb_dir_from(cache_dir);
    let db = db_path_from(cache_dir);
    let n: int = if base.len() == 0 || base.last() == '/' { base.len() as int } else { base.len() + 1int };
    assert(t.len() == n + 6 && db.len() == n + 11);
}

/// The media directory under the given platform picture directory (the
/// directory itself, or `~/Pictures` when there is none).
pub fn media_dir_in(picture_dir: Option<String>) -> (r: String)
    ensures
        r@ == dir_or(opt_str_view(picture_dir), pictures_fallback()),
{
    proof {
        reveal_strlit("~/Pictures");
    }
    let fallback: &str = "~/Pictures";
    assert(fallback@ =~= pictures_fallback());
    dir_or_fallback(picture_dir, fallback)
}

pub fn default_grid_columns() -> (r: u8)
    ensures
        r == 4,
{
    4
}

pub fn default_thumbnail_size() -> (r: u32)
    ensures
        r == 256,
{
    256
}

/// Thumbnail threads for `cpus` CPUs: 2 up to four CPUs, 4 beyond.
pub fn thumb_gen_threads_for(cpus: usize) -> (r: usize)
    ensures
        r == thumb_threads_for(cpus),
{
    if cpus <= 4 { 2 } else { 4 }
}

/// Default number of thumbnail threads, from this machine's CPU count.
pub fn default_thumb_gen_threads() -> (r: usize)
    ensures
        exists|cpus: usize| cpus >= 1 && r == thumb_threads_for(cpus),
{
    let cpus = cpu_count();
    thumb_gen_threads_for(cpus)
}

pub fn default_thumb_cache_entries() -> (r: usize)
    ensures
        r == 150,
{
    150
}

pub fn default_scan_on_startup() -> (r: bool)
    ensures
        r,
{
    true
}

pub fn default_viewer_preload_count() -> (r: usize)
    ensures
        r == 1,
{
    1
}

pub fn default_viewer_max_width() -> (r: u32)
    ensures
        r == 1920,
{
    1920
}

pub fn default_viewer_max_height() -> (r: u32)
    ensures
        r == 1080,
{
    1080
}

pub fn default_fullscreen() -> (r: bool)
    ensures
        r,
{
    true
}

pub fn default_volume() -> (r: u8)
    ensures
        r == 80,
{
    80
}

pub fn default_loop_videos() -> (r: bool)
    ensures
        r,
{
    true
}

pub open spec fn auto_mode() -> Seq<char> {
    seq!['a', 'u', 't', 'o']
}

pub fn default_hw_accel() -> (r: String)
    ensures
        r@ == auto_mode(),
{
    proof { reveal_strlit("auto"); }
    String::from_str("auto")
}

/// Gallery settings.
pub struct GalleryConfig {
    pub media_dir: String,
    pub grid_columns: u8,
    pub thumbnail_size: u32,
}

impl GalleryConfig {
    /// The defaults under the given platform picture directory: that
    /// directory (or `~/Pictures`), 4 columns, 256-pixel thumbnails.
    pub fn with_picture_dir(picture_dir: Option<String>) -> (c: GalleryConfig)
        ensures
            c.media_dir@ == dir_or(opt_str_view(picture_dir), pictures_fallback()),
            c.grid_columns == 4,
            c.thumbnail_size == 256,
    {
        GalleryConfig {
            media_dir: media_dir_in(picture_dir),
            grid_columns: default_grid_columns(),
            thumbnail_size: default_thumbnail_size(),
        }
    }
}

/// Resource settings.
pub struct PerformanceConfig {
    pub thumb_gen_threads: usize,
    pub thumb_cache_entries: usize,
    pub scan_on_startup: bool,
    /// Number of images to preload ahead and behind in the viewer (0 = disabled).
    pub viewer_preload_count: usize,
    /// Maximum width/height to load viewer images at. Images larger than this are
    /// downscaled to fit, saving significant memory on high-res cameras.
    pub viewer_max_width: u32,
    pub viewer_max_height: u32,
}

impl Default for PerformanceConfig {
    /// The defaults: thread count from the CPU count, 150 cached thumbnails,
    /// scan at startup, preload one neighbour, 1920x1080 viewer images.
    fn default() -> (c: PerformanceConfig)
        ensures
            exists|cpus: usize| cpus >= 1 && c.thumb_gen_threads == thumb_threads_for(cpus),
            c.thumb_cache_entries == 150,
            c.scan_on_startup,
            c.viewer_preload_count == 1,
            c.viewer_max_width == 1920,
            c.viewer_max_height == 1080,
    {
        PerformanceConfig {
            thumb_gen_threads: default_thumb_gen_threads(),
            thumb_cache_entries: default_thumb_cache_entries(),
            scan_on_startup: default_scan_on_startup(),
            viewer_preload_count: default_viewer_preload_count(),
            viewer_max_width: default_viewer_max_width(),
            viewer_max_height: default_viewer_max_height(),
        }
    }
}

/// Display settings.
pub struct UiConfig {
    pub fullscreen: bool,
}

impl Default for UiConfig {
    /// The defaults: full screen.
    fn default() -> (c: UiConfig)
        ensures
            c.fullscreen,
    {
        UiConfig { fullscreen: default_fullscreen() }
    }
}

/// Video playback settings.
pub struct VideoConfig {
    pub default_volume: u8,
    pub loop_videos: bool,
    /// Hardware acceleration mode: "auto" (try h264_v4l2m2m, fall back to SW),
    /// "v4l2m2m" (force, fail if unavailable), or "none" (always SW decode).
    pub hw_accel: String,
}

impl Default for VideoConfig {
    /// The defaults: volume 80, looping, "auto" acceleration.
    fn default() -> (c: VideoConfig)
        ensures
            c.default_volume == 80,
            c.loop_videos,
            c.hw_accel@ == auto_mode(),
    {
        VideoConfig {
            default_volume: default_volume(),
            loop_videos: default_loop_videos(),
            hw_accel: default_hw_accel(),
        }
    }
}

impl VideoConfig {
    /// A copy of the settings.
    pub fn duplicate(&self) -> (c: VideoConfig)
        ensures
            c == *self,
    {
        VideoConfig {
            default_volume: self.default_volume,
            loop_videos: self.loop_videos,
            hw_accel: self.hw_accel.clone(),
        }
    }
}

/// All settings of the application.
pub struct Config {
    pub gallery: GalleryConfig,
    pub performance: PerformanceConfig,
    pub ui: UiConfig,
    pub video: VideoConfig,
}

impl Config {
    /// Every section at its defaults, the media directory under the given
    /// platform picture directory.
    pub fn with_picture_dir(picture_dir: Option<String>) -> (c: Config)
        ensures
            c.gallery.media_dir@ == dir_or(opt_str_view(picture_dir), pictures_fallback()),
            c.gallery.grid_columns == 4,
            c.gallery.thumbnail_size == 256,
            exists|cpus: usize| cpus >= 1 && c.performance.thumb_gen_threads == thumb_threads_for(cpus),
            c.performance.thumb_cache_entries == 150,
            c.performance.scan_on_startup,
            c.performance.viewer_preload_count == 1,
            c.performance.viewer_max_width == 1920,
            c.performance.viewer_max_height == 1080,
            c.ui.fullscreen,
            c.video.default_volume == 80,
            c.video.loop_videos,
            c.video.hw_accel@ == auto_mode(),
    {
        Config {
            gallery: GalleryConfig::with_picture_dir(picture_dir),
            performance: PerformanceConfig::default(),
            ui: UiConfig::default(),
            video: VideoConfig::default(),
        }
    }
}

} // verus!
