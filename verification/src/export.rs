//! The JSON export: its options, its counts and its paging.

use crate::config::Config;
use vstd::prelude::*;

verus! {

/// How and where pages are written out.
#[derive(Debug, Clone)]
pub struct ExportOptions {
    pub sqlite_path: String,
    pub output_path: String,
    pub pretty: bool,
    pub include_raw_html: bool,
    pub json_lines: bool,
    pub limit: Option<u64>,
    pub batch_size: usize,
}

/// What an export wrote.
#[derive(Debug, Clone)]
pub struct ExportMetrics {
    pub exported_pages: u64,
    pub exported_definitions: u64,
    pub exported_relations: u64,
    pub exported_aliases: u64,
}

impl Default for ExportMetrics {
    fn default() -> (r: Self)
        ensures
            r.exported_pages == 0,
            r.exported_definitions == 0,
            r.exported_relations == 0,
            r.exported_aliases == 0,
    {
        ExportMetrics {
            exported_pages: 0,
            exported_definitions: 0,
            exported_relations: 0,
            exported_aliases: 0,
        }
    }
}

/// How many pages the next batch of an export asks for: a whole batch, or
/// what is left of the limit if that is less. A batch holds one page at
/// least.
pub open spec fn batch_limit(limit: Option<u64>, offset: u64, batch_size: usize) -> u64 {
    let batch = if batch_size < 1 {
        1u64
    } else {
        batch_size as u64
    };
    match limit {
        Some(limit) => {
            let left = if limit >= offset {
                (limit - offset) as u64
            } else {
                0u64
            };
            if left < batch {
                left
            } else {
                batch
            }
        },
        None => batch,
    }
}

/// How many pages the next batch of an export asks for, `offset` pages
/// having been written; 0 says that the export is done.
pub fn next_batch_limit(limit: Option<u64>, offset: u64, batch_size: usize) -> (r: u64)
    ensures
        r == batch_limit(limit, offset, batch_size),
{
    let batch: u64 = if batch_size < 1 {
        1
    } else {
        batch_size as u64
    };
    match limit {
        Some(limit) => {
            let left: u64 = if limit >= offset {
                limit - offset
            } else {
                0
            };
            if left < batch {
                left
            } else {
                batch
            }
        },
        None => batch,
    }
}

/// What the command line sets for an export.
#[derive(Debug, Clone)]
pub struct ExportRequest {
    pub output_path: String,
    pub limit: Option<u64>,
    pub pretty: bool,
    pub include_raw_html: bool,
    /// Write one array instead of one page a line.
    pub array: bool,
    pub batch_size: Option<usize>,
}

/// The options of an export: the command line can switch pretty printing,
/// raw HTML and the array form on, never off; it sets the limit; a batch
/// holds what it says or what is configured, one page at least.
pub fn export_options(config: &Config, request: ExportRequest) -> (options: ExportOptions)
    ensures
        options.sqlite_path@ == config.input.sqlite_path@,
        options.output_path@ == request.output_path@,
        options.pretty == (request.pretty || config.export.pretty),
        options.include_raw_html == (request.include_raw_html || config.export.include_raw_html),
        options.json_lines == (!request.array && config.export.json_lines),
        options.limit == request.limit,
        options.batch_size == match request.batch_size {
            Some(size) => if size < 1 {
                1usize
            } else {
                size
            },
            None => if config.export.batch_size < 1 {
                1usize
            } else {
                config.export.batch_size
            },
        },
{
    let batch_size = match request.batch_size {
        Some(size) => size,
        None => config.export.batch_size,
    };
    ExportOptions {
        sqlite_path: config.input.sqlite_path.clone(),
        output_path: request.output_path,
        pretty: request.pretty || config.export.pretty,
        include_raw_html: request.include_raw_html || config.export.include_raw_html,
        json_lines: if request.array {
            false
        } else {
            config.export.json_lines
        },
        limit: request.limit,
        batch_size: if batch_size < 1 {
            1
        } else {
            batch_size
        },
    }
}

/// What is written before the first page: the opening bracket of an
/// array, nothing where pages are written one a line.
pub fn opening(options: &ExportOptions) -> (text: &'static str)
    ensures
        text@ == if options.json_lines {
            ""@
        } else {
            "["@
        },
{
    if options.json_lines {
        ""
    } else {
        "["
    }
}

/// What is written between the page before and the next page of an
/// array: a comma, with a line break where the export is pretty; nothing
/// before the first page or where pages are written one a line.
pub fn before_page(options: &ExportOptions, wrote_any: bool) -> (text: &'static str)
    ensures
        text@ == if options.json_lines || !wrote_any {
            ""@
        } else if options.pretty {
            ",\n"@
        } else {
            ","@
        },
{
    if options.json_lines || !wrote_any {
        ""
    } else if options.pretty {
        ",\n"
    } else {
        ","
    }
}

/// What is written after a page: a line break where pages are written one
/// a line, nothing in an array.
pub fn after_page(options: &ExportOptions) -> (text: &'static str)
    ensures
        text@ == if options.json_lines {
            "\n"@
        } else {
            ""@
        },
{
    if options.json_lines {
        "\n"
    } else {
        ""
    }
}

/// What is written after the last page: the closing bracket of an array,
/// after a line break where the export is pretty and has a page; nothing
/// where pages are written one a line.
pub fn closing(options: &ExportOptions, wrote_any: bool) -> (text: &'static str)
    ensures
        text@ == if options.json_lines {
            ""@
        } else if options.pretty && wrote_any {
            "\n]"@
        } else {
            "]"@
        },
{
    if options.json_lines {
        ""
    } else if options.pretty && wrote_any {
        "\n]"
    } else {
        "]"
    }
}

} // verus!
