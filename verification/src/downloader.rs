//! The model downloader's verified core: where a model is fetched from and
//! stored, and the bookkeeping of a download in progress. The network
//! transfer itself is outside work performed by the surrounding
//! application, which feeds byte counts back into these functions.

use vstd::prelude::*;

use vstd::arithmetic::div_mod::{lemma_div_is_ordered, lemma_div_multiples_vanish};

verus! {

/// How a download ended: complete, cancelled by the shared flag, or cut
/// short of the announced size.
#[derive(Debug, Clone, PartialEq, Eq, Structural)]
pub enum DownloadStatus {
    Finsished,
    Cancelled,
    Partial,
}

/// A planned model download: the base URL to fetch from, the model file
/// name, and the directory to save into.
#[derive(Debug, Clone)]
pub struct ModelDownloader {
    pub base_url: String,
    pub model_name: String,
    pub save_dir: String,
}

impl ModelDownloader {
    /// A downloader for one model, fetching from the official model site.
    pub fn new(model_name: String, save_dir: String) -> (d: ModelDownloader)
        ensures
            d.base_url@ == "https://huggingface.co/ggerganov/whisper.cpp/resolve/main"@,
            d.model_name == model_name,
            d.save_dir == save_dir,
    {
        ModelDownloader {
            base_url: String::from_str(
                "https://huggingface.co/ggerganov/whisper.cpp/resolve/main",
            ),
            model_name,
            save_dir,
        }
    }

    pub fn with_base_url(self, base_url: String) -> (d: ModelDownloader)
        ensures
            d.base_url == base_url,
            d.model_name == self.model_name,
            d.save_dir == self.save_dir,
    {
        ModelDownloader { base_url, ..self }
    }

    /// Where the finished model file will live: the save directory and the
    /// model name joined by a slash.
    pub fn model_path(&self) -> (r: String)
        ensures
            r@ == self.save_dir@ + "/"@ + self.model_name@,
    {
        let mut path = self.save_dir.clone();
        path.append("/");
        path.append(self.model_name.as_str());
        path
    }

    /// Where the transfer writes before the file is complete: the model
    /// path with a `.tmp` suffix.
    pub fn temporary_path(&self) -> (r: String)
        ensures
            r@ == self.save_dir@ + "/"@ + self.model_name@ + ".tmp"@,
    {
        let mut path = self.model_path();
        path.append(".tmp");
        path
    }

    /// The URL the model is fetched from: the base URL and the model name
    /// joined by a slash.
    pub fn download_url(&self) -> (r: String)
        ensures
            r@ == self.base_url@ + "/"@ + self.model_name@,
    {
        let mut url = self.base_url.clone();
        url.append("/");
        url.append(self.model_name.as_str());
        url
    }
}

/// The progress of a transfer as a whole percentage of the announced
/// size, never beyond 100 while the transfer stays within it.
pub fn download_progress_percent(downloaded: u64, total_size: u64) -> (p: u64)
    requires
        total_size > 0,
        downloaded * 100 <= u64::MAX,
    ensures
        p == downloaded * 100 / total_size as int,
        downloaded <= total_size ==> p <= 100,
{
    let p = downloaded * 100 / total_size;
    proof {
        if downloaded <= total_size {
            lemma_div_is_ordered(
                downloaded as int * 100,
                total_size as int * 100,
                total_size as int,
            );
            lemma_div_multiples_vanish(100, total_size as int);
        }
    }
    p
}

/// How a transfer that ran to the end of its stream is judged: complete
/// only when exactly the announced size arrived, else partial.
pub fn completion_status(total_size: u64, downloaded: u64) -> (s: DownloadStatus)
    ensures
        s == (if downloaded == total_size {
            DownloadStatus::Finsished
        } else {
            DownloadStatus::Partial
        }),
{
    if downloaded == total_size {
        DownloadStatus::Finsished
    } else {
        DownloadStatus::Partial
    }
}

} // verus!
