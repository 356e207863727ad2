//! The failures that the tool's operations report to the front end.
use vstd::prelude::*;
use vstd::string::StringExecFns;

verus! {

#[derive(Debug)]
pub enum ToolError {
    /// No candidate location holds the tool.
    ExecutableNotFound,
    /// A download is already running in this process.
    AlreadyInProgress,
    /// The child process could not be started or awaited; the system's reason.
    SpawnFailure(String),
    /// A download's child process exited with a failure status.
    NonZeroExit,
    /// An info request's child process failed; what it wrote to stderr.
    InfoFailed(String),
    /// Neither the package manager nor the language runtime is installed.
    RuntimeMissing,
    /// An info request's output could not be read; the reason.
    MalformedOutput(String),
    /// The language runtime is installed but its package manager is not.
    PackageManagerMissing,
    /// The package manager failed to install the tool; what it wrote to stderr.
    InstallFailed(String),
    /// Neither the download directory nor the home directory is known.
    DirectoryUnresolvable,
}

/// The user-facing text of each error.
pub open spec fn message_of(e: ToolError) -> Seq<char> {
    match e {
        ToolError::ExecutableNotFound => "未找到 you-get，请检查是否已安装"@,
        ToolError::AlreadyInProgress => "Another download is in progress"@,
        ToolError::SpawnFailure(m) => m@,
        ToolError::NonZeroExit => "下载失败"@,
        ToolError::InfoFailed(m) => "获取视频信息失败: "@ + m@,
        ToolError::MalformedOutput(m) => "Malformed tool output: "@ + m@,
        ToolError::RuntimeMissing => "未安装 Python，请手动安装 Python 后再安装 you-get"@,
        ToolError::PackageManagerMissing => "未找到 pip，请确保 Python 已安装并且 pip 可用"@,
        ToolError::InstallFailed(m) => "Failed to install you-get: "@ + m@,
        ToolError::DirectoryUnresolvable => "无法获取系统下载目录"@,
    }
}

impl ToolError {
    /// The text shown to the user for this error.
    pub fn message(&self) -> (r: String)
        ensures
            r@ == message_of(*self),
    {
        match self {
            ToolError::ExecutableNotFound => "未找到 you-get，请检查是否已安装".to_owned(),
            ToolError::AlreadyInProgress => "Another download is in progress".to_owned(),
            ToolError::SpawnFailure(m) => m.clone(),
            ToolError::NonZeroExit => "下载失败".to_owned(),
            ToolError::InfoFailed(m) => "获取视频信息失败: ".to_owned().concat(m.as_str()),
            ToolError::MalformedOutput(m) => "Malformed tool output: ".to_owned().concat(m.as_str()),
            ToolError::RuntimeMissing => "未安装 Python，请手动安装 Python 后再安装 you-get".to_owned(),
            ToolError::PackageManagerMissing => "未找到 pip，请确保 Python 已安装并且 pip 可用".to_owned(),
            ToolError::InstallFailed(m) => "Failed to install you-get: ".to_owned().concat(m.as_str()),
            ToolError::DirectoryUnresolvable => "无法获取系统下载目录".to_owned(),
        }
    }
}

} // verus!
