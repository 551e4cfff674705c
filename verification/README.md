# Charon

Charon is a mobile-optimized maps and navigation application.

The library under `src/` holds everything that is decided and computed: which
tiles are visible and cached, how vector tiles are drawn, which regions share
data, how search results and routes are combined, how text is edited, and how
the views react to touch input. All of it is verified with Verus.

 - `tiles`: visible tiles, tile cache, and vector tile rendering
 - `region`, `build`: regions with offline data, and their generation
 - `downloader`: tiles inside of a polygon
 - `geocoder`, `router`: combination of search and routing results
 - `ui`: views, text field, lists, and the window
 - `config`, `keyboard`, `dbus`: configuration and input devices

`app/` connects the library to the outside: network, database, DBus, files, and
floating point geometry. The content of the window is drawn by Skia, if it is
built with `--cfg skia`.
