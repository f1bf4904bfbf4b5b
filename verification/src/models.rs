use vstd::prelude::*;

use crate::text::num::{i64_text, int_text};
use crate::text::strs::{push_all, string_of};

verus! {

broadcast use vstd::string::group_string_axioms;

/// The kind of a clipboard record.
#[derive(Debug, Clone, Copy, PartialEq, Eq, Structural)]
pub enum ClipboardType {
    Text,
    Html,
    Rtf,
    Image,
    File,
    Folder,
}

/// The number that stores a clipboard kind.
pub open spec fn clipboard_type_code(t: ClipboardType) -> i32 {
    match t {
        ClipboardType::Text => 0,
        ClipboardType::Html => 1,
        ClipboardType::Rtf => 2,
        ClipboardType::Image => 3,
        ClipboardType::File => 4,
        ClipboardType::Folder => 5,
    }
}

/// The clipboard kind stored as `code`, if any.
pub open spec fn clipboard_type_of_code(code: i32) -> Option<ClipboardType> {
    if code == 0 {
        Some(ClipboardType::Text)
    } else if code == 1 {
        Some(ClipboardType::Html)
    } else if code == 2 {
        Some(ClipboardType::Rtf)
    } else if code == 3 {
        Some(ClipboardType::Image)
    } else if code == 4 {
        Some(ClipboardType::File)
    } else if code == 5 {
        Some(ClipboardType::Folder)
    } else {
        None
    }
}

pub open spec fn invalid_clipboard_type_message(code: i32) -> Seq<char> {
    "invalid clipboard type: "@ + int_text(code as int)
}

impl ClipboardType {
    /// The number that stores this kind.
    pub fn code(self) -> (c: i32)
        ensures
            c == clipboard_type_code(self),
    {
        match self {
            ClipboardType::Text => 0,
            ClipboardType::Html => 1,
            ClipboardType::Rtf => 2,
            ClipboardType::Image => 3,
            ClipboardType::File => 4,
            ClipboardType::Folder => 5,
        }
    }

    /// The kind stored as `value`, or the message that rejects it.
    pub fn from_code(value: i32) -> (r: Result<ClipboardType, String>)
        ensures
            r matches Ok(t) ==> clipboard_type_of_code(value) == Some(t),
            r matches Err(m) ==> clipboard_type_of_code(value) is None && m@
                == invalid_clipboard_type_message(value),
            r is Ok <==> clipboard_type_of_code(value) is Some,
    {
        if value == 0 {
            Ok(ClipboardType::Text)
        } else if value == 1 {
            Ok(ClipboardType::Html)
        } else if value == 2 {
            Ok(ClipboardType::Rtf)
        } else if value == 3 {
            Ok(ClipboardType::Image)
        } else if value == 4 {
            Ok(ClipboardType::File)
        } else if value == 5 {
            Ok(ClipboardType::Folder)
        } else {
            let mut text = crate::text::strs::chars_of("invalid clipboard type: ");
            let digits = i64_text(value as i64);
            push_all(&mut text, &digits);
            Err(string_of(&text))
        }
    }
}

impl From<ClipboardType> for i32 {
    fn from(value: ClipboardType) -> (r: i32) {
        value.code()
    }
}

impl vstd::std_specs::convert::FromSpecImpl<ClipboardType> for i32 {
    open spec fn obeys_from_spec() -> bool {
        true
    }

    open spec fn from_spec(v: ClipboardType) -> i32 {
        clipboard_type_code(v)
    }
}

/// Every kind is read back from the number that stores it, and every number
/// that is read back names the kind stored under it.
pub proof fn law_clipboard_type_code_round_trip(t: ClipboardType, code: i32)
    ensures
        clipboard_type_of_code(clipboard_type_code(t)) == Some(t),
        clipboard_type_of_code(code) matches Some(k) ==> clipboard_type_code(k) == code,
{
}

/// A clipboard record as stored.
pub struct ClipboardRecord {
    pub id: i32,
    pub kind: i32,
    pub data: Option<Vec<u8>>,
    pub preview: Option<String>,
    pub hash: Option<String>,
    pub size: Option<i64>,
    pub source_app: Option<String>,
    pub created_at: i64,
    pub last_accessed_at: i64,
    pub access_count: i32,
    pub is_favorite: i32,
    pub is_shared: i32,
    pub is_valid: i32,
}

/// A clipboard record without its data.
pub struct RecordSummary {
    pub id: i32,
    pub kind: i32,
    pub preview: Option<String>,
    pub hash: Option<String>,
    pub size: Option<i64>,
    pub source_app: Option<String>,
    pub created_at: i64,
    pub last_accessed_at: i64,
    pub access_count: i32,
    pub is_favorite: i32,
    pub is_shared: i32,
    pub is_valid: i32,
}

impl RecordSummary {
    /// The record that this summary describes, without data.
    pub fn into_model(self) -> (m: ClipboardRecord)
        ensures
            m.id == self.id,
            m.kind == self.kind,
            m.data is None,
            m.preview == self.preview,
            m.hash == self.hash,
            m.size == self.size,
            m.source_app == self.source_app,
            m.created_at == self.created_at,
            m.last_accessed_at == self.last_accessed_at,
            m.access_count == self.access_count,
            m.is_favorite == self.is_favorite,
            m.is_shared == self.is_shared,
            m.is_valid == self.is_valid,
    {
        ClipboardRecord {
            id: self.id,
            kind: self.kind,
            data: None,
            preview: self.preview,
            hash: self.hash,
            size: self.size,
            source_app: self.source_app,
            created_at: self.created_at,
            last_accessed_at: self.last_accessed_at,
            access_count: self.access_count,
            is_favorite: self.is_favorite,
            is_shared: self.is_shared,
            is_valid: self.is_valid,
        }
    }
}

/// One file or folder of a file clipboard record.
pub struct ClipboardFileItem {
    pub name: String,
    pub path: String,
    pub kind: i32,
    pub is_dir: bool,
    pub size: Option<i64>,
    pub exists: bool,
}

/// A clipboard record as the user interface shows it.
pub struct ClipboardResponse {
    pub id: i32,
    pub kind: i32,
    pub preview: Option<String>,
    pub hash: Option<String>,
    pub size: Option<i64>,
    pub source_app: Option<String>,
    pub created_at: i64,
    pub last_accessed_at: i64,
    pub access_count: i32,
    pub is_favorite: i32,
    pub is_shared: i32,
    pub is_valid: i32,
    pub file_items: Option<Vec<ClipboardFileItem>>,
    pub available_formats: Vec<String>,
}

/// A directory's listing.
pub struct DirectoryList {
    pub type_: String,
    pub path: String,
    pub entries: Vec<DirEntry>,
}

/// One entry of a directory listing.
pub struct DirEntry {
    pub name: String,
    pub path: String,
    pub is_dir: bool,
    pub size: Option<u64>,
}

/// What to do with a window.
pub enum WindowOperations {
    Close,
    Hide,
}

/// The application's windows.
pub enum WindowLabel {
    Clipboard,
    Config,
    ShareFile,
}

impl WindowLabel {
    /// The window's label.
    pub fn label(&self) -> (s: &'static str)
        ensures
            s@ == match self {
                WindowLabel::Clipboard => "index"@,
                WindowLabel::Config => "app-config"@,
                WindowLabel::ShareFile => "shared-files"@,
            },
    {
        match self {
            WindowLabel::Clipboard => "index",
            WindowLabel::Config => "app-config",
            WindowLabel::ShareFile => "shared-files",
        }
    }

    /// The window's title.
    pub fn title(&self) -> (s: &'static str)
        ensures
            s@ == match self {
                WindowLabel::Clipboard => "剪切板"@,
                WindowLabel::Config => "设置"@,
                WindowLabel::ShareFile => "文件"@,
            },
    {
        match self {
            WindowLabel::Clipboard => "剪切板",
            WindowLabel::Config => "设置",
            WindowLabel::ShareFile => "文件",
        }
    }

    /// The route that the window's page opens.
    pub fn url_params(&self) -> (s: &'static str)
        ensures
            s@ == match self {
                WindowLabel::Clipboard => ""@,
                WindowLabel::Config => "app-config"@,
                WindowLabel::ShareFile => "shared-files"@,
            },
    {
        match self {
            WindowLabel::Clipboard => "",
            WindowLabel::Config => "app-config",
            WindowLabel::ShareFile => "shared-files",
        }
    }
}

/// An error of the application's own logic; the outside errors carry their
/// message.
#[derive(Debug)]
pub enum AppError {
    Database(String),
    InvalidInput(String),
    NotFound,
    Unauthorized,
    Internal(String),
    Io(String),
    Json(String),
}

/// An error as the user interface receives it.
#[derive(Debug)]
pub struct ApiError {
    pub code: &'static str,
    pub message: String,
}

/// The code and message that an error is reported with.
pub open spec fn api_error_of(err: AppError) -> (Seq<char>, Seq<char>) {
    match err {
        AppError::Database(m) => ("DATABASE_ERROR"@, m@),
        AppError::InvalidInput(m) => ("INVALID_INPUT"@, m@),
        AppError::NotFound => ("NOT_FOUND"@, "Resource not found"@),
        AppError::Unauthorized => ("UNAUTHORIZED"@, "Unauthorized"@),
        AppError::Internal(m) => ("INTERNAL_ERROR"@, m@),
        AppError::Io(m) => ("IO_ERROR"@, m@),
        AppError::Json(m) => ("SERIALIZATION_ERROR"@, m@),
    }
}

impl ApiError {
    /// The error as the user interface receives it.
    pub fn from_app_error(err: AppError) -> (r: ApiError)
        ensures
            (r.code@, r.message@) == api_error_of(err),
    {
        match err {
            AppError::Database(message) => ApiError { code: "DATABASE_ERROR", message },
            AppError::InvalidInput(message) => ApiError { code: "INVALID_INPUT", message },
            AppError::NotFound => ApiError {
                code: "NOT_FOUND",
                message: String::from_str("Resource not found"),
            },
            AppError::Unauthorized => ApiError {
                code: "UNAUTHORIZED",
                message: String::from_str("Unauthorized"),
            },
            AppError::Internal(message) => ApiError { code: "INTERNAL_ERROR", message },
            AppError::Io(message) => ApiError { code: "IO_ERROR", message },
            AppError::Json(message) => ApiError { code: "SERIALIZATION_ERROR", message },
        }
    }
}

/// The message of an invalid UTF-8 sequence, for the error text of the
/// conversion.
pub fn invalid_utf8_error(detail: &str) -> (e: AppError)
    ensures
        (e matches AppError::InvalidInput(m) && m@ == "无效的 UTF-8 数据: "@ + detail@),
{
    let mut m = String::from_str("无效的 UTF-8 数据: ");
    m.append(detail);
    AppError::InvalidInput(m)
}

} // verus!
