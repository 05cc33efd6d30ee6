use vstd::prelude::*;
use crate::error::prefixed;

verus! {

/// What the file system reports about a path given on the command line.
pub struct PathStatus {
    /// The path as given.
    pub path: String,
    /// Whether something exists at the path.
    pub exists: bool,
    /// Whether the path names a directory.
    pub is_dir: bool,
}

/// Reasons to reject the command-line arguments.
pub enum ArgsError {
    /// The input image does not exist.
    InputMissing(String),
    /// The settings file does not exist.
    ParamsMissing(String),
    /// The output path names a directory.
    OutputIsDirectory(String),
    /// The plugin directory does not exist.
    PluginDirMissing(String),
    /// The plugin path is not a directory.
    PluginDirNotDirectory(String),
}

/// The text that describes a rejection.
pub open spec fn args_error_text(e: ArgsError) -> Seq<char> {
    match e {
        ArgsError::InputMissing(p) => "Входной файл не существует: "@ + p@,
        ArgsError::ParamsMissing(p) => "Файл параметров не существует: "@ + p@,
        ArgsError::OutputIsDirectory(p) => "Выходной путь является директорией, а должен быть файлом: "@ + p@,
        ArgsError::PluginDirMissing(p) => "Директория с плагинами не найдена: "@ + p@,
        ArgsError::PluginDirNotDirectory(p) => "Путь к плагину должен быть директорией: "@ + p@,
    }
}

/// Verdict on the input, settings and output paths: the input must exist, then the
/// settings file must exist, then the output must not be an existing directory.
pub open spec fn io_paths_verdict(input: PathStatus, params: PathStatus, output: PathStatus) -> Result<(), ArgsError> {
    if !input.exists {
        Err(ArgsError::InputMissing(input.path))
    } else if !params.exists {
        Err(ArgsError::ParamsMissing(params.path))
    } else if output.exists && output.is_dir {
        Err(ArgsError::OutputIsDirectory(output.path))
    } else {
        Ok(())
    }
}

/// Verdict on the plugin directory: it must exist and be a directory.
pub open spec fn plugin_dir_verdict(dir: PathStatus) -> Result<(), ArgsError> {
    if !dir.exists {
        Err(ArgsError::PluginDirMissing(dir.path))
    } else if !dir.is_dir {
        Err(ArgsError::PluginDirNotDirectory(dir.path))
    } else {
        Ok(())
    }
}

/// Once the input and the settings file exist, the paths are refused for the output only
/// when it is an existing directory: an output file that already exists is accepted, and
/// will be overwritten.
pub proof fn lemma_output_rule(input: PathStatus, params: PathStatus, output: PathStatus)
    requires
        input.exists,
        params.exists,
    ensures
        io_paths_verdict(input, params, output) is Ok <==> !(output.exists && output.is_dir),
        output.exists && !output.is_dir ==> io_paths_verdict(input, params, output) is Ok,
        output.exists && output.is_dir ==> (io_paths_verdict(input, params, output) matches Err(
            ArgsError::OutputIsDirectory(p)) && p == output.path),
{
}

/// Checks the input, settings and output paths, in that order.
pub fn check_io_paths(input: &PathStatus, params: &PathStatus, output: &PathStatus) -> (res: Result<(), ArgsError>)
    ensures
        res == io_paths_verdict(*input, *params, *output),
        input.exists && params.exists ==> (res is Ok <==> !(output.exists && output.is_dir)),
{
    proof {
        if input.exists && params.exists {
            lemma_output_rule(*input, *params, *output);
        }
    }
    if !input.exists {
        return Err(ArgsError::InputMissing(input.path.clone()));
    }
    if !params.exists {
        return Err(ArgsError::ParamsMissing(params.path.clone()));
    }
    if output.exists && output.is_dir {
        return Err(ArgsError::OutputIsDirectory(output.path.clone()));
    }
    Ok(())
}

/// Whether the directory that will hold the output has to be created first: the output
/// path has a parent and nothing exists there.
pub fn must_create_parent(parent: &Option<PathStatus>) -> (create: bool)
    ensures
        create == (parent matches Some(p) && !p.exists),
{
    match parent {
        Some(p) => !p.exists,
        None => false,
    }
}

/// Checks the plugin directory.
pub fn check_plugin_dir(dir: &PathStatus) -> (res: Result<(), ArgsError>)
    ensures
        res == plugin_dir_verdict(*dir),
{
    if !dir.exists {
        return Err(ArgsError::PluginDirMissing(dir.path.clone()));
    }
    if !dir.is_dir {
        return Err(ArgsError::PluginDirNotDirectory(dir.path.clone()));
    }
    Ok(())
}

impl ArgsError {
    /// The text that describes this rejection.
    pub fn message(&self) -> (m: String)
        ensures
            m@ == args_error_text(*self),
    {
        match self {
            ArgsError::InputMissing(p) => prefixed("Входной файл не существует: ", p),
            ArgsError::ParamsMissing(p) => prefixed("Файл параметров не существует: ", p),
            ArgsError::OutputIsDirectory(p) => prefixed("Выходной путь является директорией, а должен быть файлом: ", p),
            ArgsError::PluginDirMissing(p) => prefixed("Директория с плагинами не найдена: ", p),
            ArgsError::PluginDirNotDirectory(p) => prefixed("Путь к плагину должен быть директорией: ", p),
        }
    }
}

} // verus!
