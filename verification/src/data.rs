//! Plain enumerations shared by the proxy core and its surroundings.

use vstd::prelude::*;

verus! {

/// The traffic categories an inspector can filter the captured
/// messages by.
#[derive(Clone, Copy, Debug, PartialEq, Eq, Structural)]
pub enum FilterMode {
    NoFilter,
    XHR,
    Document,
    Css,
    Js,
    Font,
    Image,
    Media,
    Ws,
}

impl FilterMode {
    /// Every filter mode, in display order, starting with `NoFilter`.
    pub fn modes() -> (r: [FilterMode; 9])
        ensures
            r@ =~= seq![
                FilterMode::NoFilter,
                FilterMode::XHR,
                FilterMode::Document,
                FilterMode::Css,
                FilterMode::Js,
                FilterMode::Font,
                FilterMode::Image,
                FilterMode::Media,
                FilterMode::Ws,
            ],
    {
        [
            FilterMode::NoFilter,
            FilterMode::XHR,
            FilterMode::Document,
            FilterMode::Css,
            FilterMode::Js,
            FilterMode::Font,
            FilterMode::Image,
            FilterMode::Media,
            FilterMode::Ws,
        ]
    }

    /// The fixed caption of each mode.
    pub fn label(&self) -> (r: &'static str)
        ensures
            r@ == match *self {
                FilterMode::NoFilter => "无"@,
                FilterMode::XHR => "XHR"@,
                FilterMode::Document => "文档"@,
                FilterMode::Css => "Css"@,
                FilterMode::Js => "Js"@,
                FilterMode::Font => "字体"@,
                FilterMode::Image => "图片"@,
                FilterMode::Media => "媒体"@,
                FilterMode::Ws => "套接字"@,
            },
    {
        match *self {
            FilterMode::NoFilter => "无",
            FilterMode::XHR => "XHR",
            FilterMode::Document => "文档",
            FilterMode::Css => "Css",
            FilterMode::Js => "Js",
            FilterMode::Font => "字体",
            FilterMode::Image => "图片",
            FilterMode::Media => "媒体",
            FilterMode::Ws => "套接字",
        }
    }
}

/// The two directions of one proxied connection.
///
/// A directional copier is created with one of these and never changes
/// it: the two copiers of a session are two independent instances, not
/// one value flipped in place.
#[derive(Clone, Copy, Debug, PartialEq, Eq, Structural)]
pub enum Direction {
    ClientToServer,
    ServerToClient,
}

impl Direction {
    /// The fixed name of each direction, for log lines.
    pub fn label(&self) -> (r: &'static str)
        ensures
            r@ == match *self {
                Direction::ClientToServer => "ClientToServer"@,
                Direction::ServerToClient => "ServerToClient"@,
            },
    {
        match *self {
            Direction::ClientToServer => "ClientToServer",
            Direction::ServerToClient => "ServerToClient",
        }
    }
}

} // verus!
