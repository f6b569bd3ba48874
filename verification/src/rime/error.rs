use vstd::prelude::*;

use crate::rime::text::{chars_of, push_all, string_of};

verus! {

/// A structured error of a Rime operation, for the user interface to show.
pub enum RimeError {
    /// A file operation failed.
    Io(String),
    /// A YAML or JSON text could not be parsed.
    Parse(String),
    /// A configuration or an input is invalid.
    Config(String),
    /// Permission was denied.
    Permission(String),
    /// A path tried to leave its directory.
    InvalidPath(String),
    /// Something was not found.
    NotFound(String),
    /// An operation came too soon after the last one.
    RateLimited(String),
    /// Anything else.
    Unknown(String),
}

/// The kinds of I/O failure an error keeps apart.
#[derive(Debug, Clone, Copy, PartialEq, Eq, Structural)]
pub enum IoKind {
    NotFound,
    PermissionDenied,
    Other,
}

/// The message an error is shown with: a prefix for its kind, then its detail.
pub open spec fn error_text(e: RimeError) -> Seq<char> {
    match e {
        RimeError::Io(d) => "文件操作失败: "@ + d@,
        RimeError::Parse(d) => "配置解析失败: "@ + d@,
        RimeError::Config(d) => "配置错误: "@ + d@,
        RimeError::Permission(d) => "权限不足: "@ + d@,
        RimeError::InvalidPath(d) => "路径无效: "@ + d@,
        RimeError::NotFound(d) => "未找到: "@ + d@,
        RimeError::RateLimited(d) => "操作过于频繁: "@ + d@,
        RimeError::Unknown(d) => "未知错误: "@ + d@,
    }
}

fn prefixed(prefix: &str, detail: &String) -> (r: String)
    ensures
        r@ == prefix@ + detail@,
{
    let mut v = chars_of(prefix);
    push_all(&mut v, chars_of(detail.as_str()).as_slice());
    string_of(v.as_slice())
}

impl RimeError {
    /// The message the error is shown with.
    pub fn message(&self) -> (r: String)
        ensures
            r@ == error_text(*self),
    {
        match self {
            RimeError::Io(d) => prefixed("文件操作失败: ", d),
            RimeError::Parse(d) => prefixed("配置解析失败: ", d),
            RimeError::Config(d) => prefixed("配置错误: ", d),
            RimeError::Permission(d) => prefixed("权限不足: ", d),
            RimeError::InvalidPath(d) => prefixed("路径无效: ", d),
            RimeError::NotFound(d) => prefixed("未找到: ", d),
            RimeError::RateLimited(d) => prefixed("操作过于频繁: ", d),
            RimeError::Unknown(d) => prefixed("未知错误: ", d),
        }
    }

    /// The error an I/O failure becomes: a missing file is `NotFound`, a
    /// refused access `Permission`, anything else `Io`.
    pub fn from_io(kind: IoKind, detail: String) -> (e: RimeError)
        ensures
            kind == IoKind::NotFound ==> (e matches RimeError::NotFound(d) && d@ == detail@),
            kind == IoKind::PermissionDenied ==> (e matches RimeError::Permission(d) && d@ == detail@),
            kind == IoKind::Other ==> (e matches RimeError::Io(d) && d@ == detail@),
    {
        match kind {
            IoKind::NotFound => RimeError::NotFound(detail),
            IoKind::PermissionDenied => RimeError::Permission(detail),
            IoKind::Other => RimeError::Io(detail),
        }
    }
}

} // verus!
