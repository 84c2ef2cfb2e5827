//! The configuration with which an application is started.

use vstd::prelude::*;

verus! {

/// The window of an application: its title, its size in whole pixels, and
/// whether the user can resize it.
pub struct WindowConfig {
    pub title: String,
    pub width: u32,
    pub height: u32,
    pub resizable: bool,
}

/// An application that is being set up: its window and, once given, the
/// content to compose. `C` is the content.
pub struct BecomposeApp<C> {
    pub window_config: WindowConfig,
    pub content: Option<C>,
}

impl WindowConfig {
    /// Width and height are positive.
    pub open spec fn valid(&self) -> bool {
        self.width > 0 && self.height > 0
    }

    /// A resizable window of 800 by 600 with the given title.
    pub fn new(title: String) -> (config: WindowConfig)
        ensures
            config.title == title,
            config.width == 800,
            config.height == 600,
            config.resizable,
            config.valid(),
    {
        WindowConfig { title, width: 800, height: 600, resizable: true }
    }

    /// The configuration with the given size.
    pub fn with_size(self, width: u32, height: u32) -> (config: WindowConfig)
        requires
            width > 0,
            height > 0,
        ensures
            config == (WindowConfig { width, height, ..self }),
            config.valid(),
    {
        let mut config = self;
        config.width = width;
        config.height = height;
        config
    }

    /// The configuration with the given title.
    pub fn with_title(self, title: String) -> (config: WindowConfig)
        ensures
            config == (WindowConfig { title, ..self }),
    {
        let mut config = self;
        config.title = title;
        config
    }

    /// The configuration with resizing allowed or not.
    pub fn resizable(self, resizable: bool) -> (config: WindowConfig)
        ensures
            config == (WindowConfig { resizable, ..self }),
    {
        let mut config = self;
        config.resizable = resizable;
        config
    }

    /// Whether width and height are positive.
    pub fn is_valid(&self) -> (b: bool)
        ensures
            b == self.valid(),
    {
        self.width > 0 && self.height > 0
    }
}

impl Default for WindowConfig {
    fn default() -> (config: Self)
        ensures
            config.title@ == "BECOMPOSE App"@,
            config.width == 800,
            config.height == 600,
            config.resizable,
    {
        WindowConfig { title: "BECOMPOSE App".to_string(), width: 800, height: 600, resizable: true }
    }
}

impl<C> BecomposeApp<C> {
    /// An application with the default window and no content.
    pub fn new() -> (app: BecomposeApp<C>)
        ensures
            app.window_config.title@ == "BECOMPOSE App"@,
            app.window_config.width == 800,
            app.window_config.height == 600,
            app.window_config.resizable,
            app.content is None,
    {
        BecomposeApp { window_config: WindowConfig::default(), content: None }
    }

    /// The application with the given window title.
    pub fn title(self, title: String) -> (app: BecomposeApp<C>)
        ensures
            app.window_config == (WindowConfig { title, ..self.window_config }),
            app.content == self.content,
    {
        let mut app = self;
        app.window_config.title = title;
        app
    }

    /// The application with the given window size.
    pub fn size(self, width: u32, height: u32) -> (app: BecomposeApp<C>)
        requires
            width > 0,
            height > 0,
        ensures
            app.window_config == (WindowConfig { width, height, ..self.window_config }),
            app.content == self.content,
    {
        let mut app = self;
        app.window_config.width = width;
        app.window_config.height = height;
        app
    }

    /// The application with the given window.
    pub fn window(self, config: WindowConfig) -> (app: BecomposeApp<C>)
        ensures
            app.window_config == config,
            app.content == self.content,
    {
        let mut app = self;
        app.window_config = config;
        app
    }

    /// The application with the given content, which is composed at the
    /// start and again on every full recomposition.
    pub fn content(self, content_fn: C) -> (app: BecomposeApp<C>)
        ensures
            app.window_config == self.window_config,
            app.content == Some(content_fn),
    {
        let mut app = self;
        app.content = Some(content_fn);
        app
    }
}

} // verus!
