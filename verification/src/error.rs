//! The faults that the library reports, and the sentence shown for each.

use vstd::prelude::*;
use vstd::string::StringExecFns;

use crate::decimal;
use crate::text::joined;

verus! {

/// What went wrong.
#[derive(Debug)]
pub enum AppError {
    /// A workspace with this id is not registered.
    WorkspaceNotFound(String),
    /// The last workspace cannot be removed.
    LastWorkspace,
    /// A workspace name is blank.
    EmptyWorkspaceName,
    /// A workspace name is longer than the limit.
    LongWorkspaceName,
    /// Another workspace has this name.
    DuplicateWorkspaceName(String),
    /// No workspace is registered.
    NoWorkspace,
    /// The cleanup interval is none of the supported ones.
    UnsupportedCleanupInterval,
    /// The configuration is not a TOML document.
    InvalidToml,
    /// The configuration has no proxy with this number, counted from one.
    ProxyNotFound(u64),
    /// The configuration is not a table.
    NotATable,
    /// The configuration of one proxy could not be written as TOML.
    UnrenderableToml,
    /// The configuration has no proxy at all.
    NoProxies,
    /// A runtime to be made current is not installed.
    UnknownRuntime(String),
    /// A runtime to be deleted is not installed.
    RuntimeNotFound(String),
    /// The current runtime, or one in use, cannot be deleted.
    RuntimeProtected,
    /// A runtime in use cannot be replaced.
    RuntimeInUse,
    /// No runtime is installed.
    NoRuntime,
    /// The executable of the current runtime is missing.
    BinaryMissing(String),
    /// The archive's file name is unusable.
    InvalidArchivePath,
    /// The archive's name does not follow the release naming.
    ArchiveNameFormat(String),
    /// The archive is for a platform that is not supported.
    UnsupportedPlatform,
    /// The archive has an unknown file type.
    UnsupportedArchive,
    /// The zip archive cannot be opened.
    UnreadableZip,
    /// An entry of the zip archive cannot be opened.
    UnreadableZipEntry,
    /// The compressed tar archive cannot be opened.
    UnreadableTar,
    /// An entry of the tar archive cannot be read.
    UnreadableTarEntry,
    /// The path of an entry of the tar archive cannot be read.
    UnreadableTarPath,
    /// The executable cannot be extracted.
    ExtractionFailed,
    /// The archive holds no file with this name.
    BinaryNotInArchive(String),
    /// A path has no directory part.
    NoContainingDirectory(String),
    /// A path to be written atomically has no file name.
    InvalidAtomicPath(String),
    /// A path to be written atomically has no directory part.
    AtomicPathWithoutParent(String),
    /// Stopping leftover processes failed, with this output.
    CleanupFailed(String),
    /// Stopping leftover processes of a workspace failed, with this output.
    WorkspaceCleanupFailed(String),
}

impl AppError {
    /// The sentence shown to the user.
    pub open spec fn text(&self) -> Seq<char> {
        match self {
            AppError::WorkspaceNotFound(id) => "找不到工作区："@ + id@,
            AppError::LastWorkspace => "至少需要保留一个工作区"@,
            AppError::EmptyWorkspaceName => "工作区名称不能为空"@,
            AppError::LongWorkspaceName => "工作区名称不能超过 32 个字符"@,
            AppError::DuplicateWorkspaceName(name) => "工作区名称已存在："@ + name@,
            AppError::NoWorkspace => "没有可用的工作区"@,
            AppError::UnsupportedCleanupInterval => "不支持的日志定时清理周期"@,
            AppError::InvalidToml => "TOML 格式校验失败"@,
            AppError::ProxyNotFound(n) => "找不到第 "@ + decimal::decimal(*n as nat) + " 个代理配置"@,
            AppError::NotATable => "frpc.toml 必须是 TOML 表结构"@,
            AppError::UnrenderableToml => "生成单服务配置失败"@,
            AppError::NoProxies => "没有可启动的代理配置"@,
            AppError::UnknownRuntime(id) => "找不到指定版本："@ + id@,
            AppError::RuntimeNotFound(id) => "找不到版本："@ + id@,
            AppError::RuntimeProtected => "当前版本或服务正在使用的版本不可删除"@,
            AppError::RuntimeInUse => "该 FRPC 版本正被运行中的服务使用，请先停止相关服务"@,
            AppError::NoRuntime => "没有可用的 frpc 运行时"@,
            AppError::BinaryMissing(path) => "当前 frpc 二进制不存在："@ + path@,
            AppError::InvalidArchivePath => "版本包文件名无效"@,
            AppError::ArchiveNameFormat(name) => "版本包命名不符合 frp 发布格式："@ + name@,
            AppError::UnsupportedPlatform => "仅支持 Windows 和 macOS 的 amd64/arm64 版本包"@,
            AppError::UnsupportedArchive => "仅支持 .tar.gz、.tgz、.zip 版本包"@,
            AppError::UnreadableZip => "读取 zip 版本包失败"@,
            AppError::UnreadableZipEntry => "读取 zip 条目失败"@,
            AppError::UnreadableTar => "读取 tar.gz 版本包失败"@,
            AppError::UnreadableTarEntry => "读取 tar.gz 条目失败"@,
            AppError::UnreadableTarPath => "读取 tar.gz 条目路径失败"@,
            AppError::ExtractionFailed => "提取 frpc 失败"@,
            AppError::BinaryNotInArchive(name) => "版本包中没有找到 "@ + name@,
            AppError::NoContainingDirectory(path) => "无法确定文件所在目录："@ + path@,
            AppError::InvalidAtomicPath(path) => "原子写入路径无效："@ + path@,
            AppError::AtomicPathWithoutParent(path) => "原子写入路径缺少父目录："@ + path@,
            AppError::CleanupFailed(output) => "清理残留 frpc.exe 失败："@ + output@,
            AppError::WorkspaceCleanupFailed(output) => "清理工作区残留 frpc.exe 失败："@ + output@,
        }
    }

    /// The sentence shown to the user.
    pub fn message(&self) -> (out: String)
        ensures
            out@ == self.text(),
    {
        match self {
            AppError::WorkspaceNotFound(id) => joined("找不到工作区：", id.as_str()),
            AppError::LastWorkspace => "至少需要保留一个工作区".to_owned(),
            AppError::EmptyWorkspaceName => "工作区名称不能为空".to_owned(),
            AppError::LongWorkspaceName => "工作区名称不能超过 32 个字符".to_owned(),
            AppError::DuplicateWorkspaceName(name) => joined("工作区名称已存在：", name.as_str()),
            AppError::NoWorkspace => "没有可用的工作区".to_owned(),
            AppError::UnsupportedCleanupInterval => "不支持的日志定时清理周期".to_owned(),
            AppError::InvalidToml => "TOML 格式校验失败".to_owned(),
            AppError::ProxyNotFound(n) => {
                let mut out: String = joined("找不到第 ", decimal::number_text(*n).as_str());
                out.append(" 个代理配置");
                out
            },
            AppError::NotATable => "frpc.toml 必须是 TOML 表结构".to_owned(),
            AppError::UnrenderableToml => "生成单服务配置失败".to_owned(),
            AppError::NoProxies => "没有可启动的代理配置".to_owned(),
            AppError::UnknownRuntime(id) => joined("找不到指定版本：", id.as_str()),
            AppError::RuntimeNotFound(id) => joined("找不到版本：", id.as_str()),
            AppError::RuntimeProtected => "当前版本或服务正在使用的版本不可删除".to_owned(),
            AppError::RuntimeInUse => {
                "该 FRPC 版本正被运行中的服务使用，请先停止相关服务".to_owned()
            },
            AppError::NoRuntime => "没有可用的 frpc 运行时".to_owned(),
            AppError::BinaryMissing(path) => joined("当前 frpc 二进制不存在：", path.as_str()),
            AppError::InvalidArchivePath => "版本包文件名无效".to_owned(),
            AppError::ArchiveNameFormat(name) => joined(
                "版本包命名不符合 frp 发布格式：",
                name.as_str(),
            ),
            AppError::UnsupportedPlatform => {
                "仅支持 Windows 和 macOS 的 amd64/arm64 版本包".to_owned()
            },
            AppError::UnsupportedArchive => "仅支持 .tar.gz、.tgz、.zip 版本包".to_owned(),
            AppError::UnreadableZip => "读取 zip 版本包失败".to_owned(),
            AppError::UnreadableZipEntry => "读取 zip 条目失败".to_owned(),
            AppError::UnreadableTar => "读取 tar.gz 版本包失败".to_owned(),
            AppError::UnreadableTarEntry => "读取 tar.gz 条目失败".to_owned(),
            AppError::UnreadableTarPath => "读取 tar.gz 条目路径失败".to_owned(),
            AppError::ExtractionFailed => "提取 frpc 失败".to_owned(),
            AppError::BinaryNotInArchive(name) => joined("版本包中没有找到 ", name.as_str()),
            AppError::NoContainingDirectory(path) => joined(
                "无法确定文件所在目录：",
                path.as_str(),
            ),
            AppError::InvalidAtomicPath(path) => joined("原子写入路径无效：", path.as_str()),
            AppError::AtomicPathWithoutParent(path) => joined(
                "原子写入路径缺少父目录：",
                path.as_str(),
            ),
            AppError::CleanupFailed(output) => joined(
                "清理残留 frpc.exe 失败：",
                output.as_str(),
            ),
            AppError::WorkspaceCleanupFailed(output) => joined(
                "清理工作区残留 frpc.exe 失败：",
                output.as_str(),
            ),
        }
    }
}

/// Each fault has a sentence of its own, and one about something ends with what it
/// is about.
pub proof fn law_faults_have_their_sentences(subject: String, number: u64)
    ensures
        AppError::LastWorkspace.text() == "至少需要保留一个工作区"@,
        AppError::EmptyWorkspaceName.text() == "工作区名称不能为空"@,
        AppError::LongWorkspaceName.text() == "工作区名称不能超过 32 个字符"@,
        AppError::NoWorkspace.text() == "没有可用的工作区"@,
        AppError::UnsupportedCleanupInterval.text() == "不支持的日志定时清理周期"@,
        AppError::InvalidToml.text() == "TOML 格式校验失败"@,
        AppError::NotATable.text() == "frpc.toml 必须是 TOML 表结构"@,
        AppError::UnrenderableToml.text() == "生成单服务配置失败"@,
        AppError::NoProxies.text() == "没有可启动的代理配置"@,
        AppError::RuntimeProtected.text() == "当前版本或服务正在使用的版本不可删除"@,
        AppError::RuntimeInUse.text() == "该 FRPC 版本正被运行中的服务使用，请先停止相关服务"@,
        AppError::NoRuntime.text() == "没有可用的 frpc 运行时"@,
        AppError::InvalidArchivePath.text() == "版本包文件名无效"@,
        AppError::UnsupportedPlatform.text() == "仅支持 Windows 和 macOS 的 amd64/arm64 版本包"@,
        AppError::UnsupportedArchive.text() == "仅支持 .tar.gz、.tgz、.zip 版本包"@,
        AppError::UnreadableZip.text() == "读取 zip 版本包失败"@,
        AppError::UnreadableZipEntry.text() == "读取 zip 条目失败"@,
        AppError::UnreadableTar.text() == "读取 tar.gz 版本包失败"@,
        AppError::UnreadableTarEntry.text() == "读取 tar.gz 条目失败"@,
        AppError::UnreadableTarPath.text() == "读取 tar.gz 条目路径失败"@,
        AppError::ExtractionFailed.text() == "提取 frpc 失败"@,
        AppError::WorkspaceNotFound(subject).text() == "找不到工作区："@ + subject@,
        AppError::DuplicateWorkspaceName(subject).text() == "工作区名称已存在："@ + subject@,
        AppError::UnknownRuntime(subject).text() == "找不到指定版本："@ + subject@,
        AppError::RuntimeNotFound(subject).text() == "找不到版本："@ + subject@,
        AppError::BinaryMissing(subject).text() == "当前 frpc 二进制不存在："@ + subject@,
        AppError::ArchiveNameFormat(subject).text() == "版本包命名不符合 frp 发布格式："@ + subject@,
        AppError::BinaryNotInArchive(subject).text() == "版本包中没有找到 "@ + subject@,
        AppError::NoContainingDirectory(subject).text() == "无法确定文件所在目录："@ + subject@,
        AppError::InvalidAtomicPath(subject).text() == "原子写入路径无效："@ + subject@,
        AppError::AtomicPathWithoutParent(subject).text() == "原子写入路径缺少父目录："@ + subject@,
        AppError::CleanupFailed(subject).text() == "清理残留 frpc.exe 失败："@ + subject@,
        AppError::WorkspaceCleanupFailed(subject).text() == "清理工作区残留 frpc.exe 失败："@ + subject@,
        AppError::ProxyNotFound(number).text() == "找不到第 "@ + decimal::decimal(number as nat)
            + " 个代理配置"@,
{
}

} // verus!
