use gallerypi::config::{
    cache_dir_in, config_path_in, db_path_in, default_hw_accel, join_path, media_dir_in, thumb_dir_in, thumb_gen_threads_for, Config, VideoConfig,
};

#[test]
fn default_settings() {
    let c = Config::with_picture_dir(Some("/home/u/Pictures".to_string()));
    assert_eq!(c.gallery.grid_columns, 4);
    assert_eq!(c.gallery.thumbnail_size, 256);
    assert_eq!(c.gallery.media_dir, "/home/u/Pictures");
    assert_eq!(Config::with_picture_dir(None).gallery.media_dir, "~/Pictures");
    assert!(c.performance.thumb_gen_threads == 2 || c.performance.thumb_gen_threads == 4);
    assert_eq!(c.performance.thumb_cache_entries, 150);
    assert!(c.performance.scan_on_startup);
    assert_eq!(c.performance.viewer_preload_count, 1);
    assert_eq!((c.performance.viewer_max_width, c.performance.viewer_max_height), (1920, 1080));
    assert!(c.ui.fullscreen);
    assert_eq!(c.video.default_volume, 80);
    assert!(c.video.loop_videos);
    assert_eq!(c.video.hw_accel, "auto");
    assert_eq!(default_hw_accel(), "auto");
}

#[test]
fn thread_count_by_cpus() {
    assert_eq!(thumb_gen_threads_for(1), 2);
    assert_eq!(thumb_gen_threads_for(4), 2);
    assert_eq!(thumb_gen_threads_for(5), 4);
    assert_eq!(thumb_gen_threads_for(64), 4);
}

#[test]
fn paths_under_platform_dirs() {
    assert_eq!(join_path("/a", "b"), "/a/b");
    assert_eq!(join_path("/a/", "b"), "/a/b");
    assert_eq!(join_path("", "b"), "b");
    assert_eq!(config_path_in(Some("/home/u/.config".to_string())), "/home/u/.config/gallerypi/config.toml");
    assert_eq!(config_path_in(None), "~/.config/gallerypi/config.toml");
    assert_eq!(cache_dir_in(Some("/home/u/.cache".to_string())), "/home/u/.cache/gallerypi");
    assert_eq!(cache_dir_in(None), "~/.cache/gallerypi");
}

#[test]
fn video_settings_copy() {
    let v = VideoConfig { default_volume: 30, loop_videos: false, hw_accel: "none".to_string() };
    let w = v.duplicate();
    assert_eq!((w.default_volume, w.loop_videos, w.hw_accel.as_str()), (30, false, "none"));
}

#[test]
fn thumbs_and_database_under_one_cache_dir() {
    let home = Some("/home/u/.cache".to_string());
    assert_eq!(thumb_dir_in(home.clone()), "/home/u/.cache/gallerypi/thumbs");
    assert_eq!(db_path_in(home), "/home/u/.cache/gallerypi/metadata.db");
    assert_eq!(thumb_dir_in(None), "~/.cache/gallerypi/thumbs");
    assert_eq!(db_path_in(None), "~/.cache/gallerypi/metadata.db");
    assert_eq!(media_dir_in(Some("/p".to_string())), "/p");
    assert_eq!(media_dir_in(None), "~/Pictures");
}
