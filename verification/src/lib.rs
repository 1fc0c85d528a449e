mod chunk;
mod cipher;
mod types;
mod err;
mod lz77;
mod archive;
mod parse;
mod plan;
mod reader;
mod util;

pub use cipher::{decipher, decipher_byte, derive_key, encipher, encipher_byte, key_of,
    lemma_cipher_round_trip, low_byte};
pub use archive::{chunk_warn, decode_chunks, lemma_archive_tree_wf, file_data_of, find_in_entries, find_in_entry,
    open_of, warn_views, DecodedV, HapiArchive, SizeWarning, WarnV,
    HAPI_CHUNK_SIZE};
pub use chunk::{chunk_decoded, chunk_mask, chunk_plain, chunk_plain_byte, decipher_chunk,
    lemma_payload_flip_mismatch, parse_chunk_at, read_chunk_at, zlib_decoded, ChunkV,
    HapiCompressedChunk};
pub use err::{FormatCause, HapiError};
pub use lz77::{backref_append, decode_lz77, encode_lz77, lemma_lz77_round_trip, lz77_decoded,
    lz77_encoded, lz77_encoded_from, lz77_run, window_at};
pub use parse::{join_path, lemma_parse_dir_wf, lemma_parse_entries_wf, lemma_parse_entry_wf,
    parse_dir_at, parse_entries_at, parse_entry_at, parse_file_at,
    read_dir_at};
pub use plan::{abs_plan_of_entries, abs_plan_of_entry, entries_names_ok, entries_wf,
    entry_names_ok, entry_wf, extraction_plan, lemma_plan_matches_tree, plan_join, plan_of_entries, plan_of_entry, plan_step_view,
    plan_views, HapiPlanStep, PlanStepV};
pub use plan::{step_matches, under};
pub use reader::{enciphered_of, lemma_plaintext_passthrough, lemma_source_round_trip, magic_ok,
    parse_header, plain_at, plain_of, reader_of, HapiHeader, HapiReader,
    HAPI_ARCHIVE_MARKER, HAPI_SAVE_MARKER};
pub use types::{dir_view, entry_view, entry_views, file_view, lemma_entry_views, lemma_entry_views_push, DirV, EntryV, FileV, HapiCompressionType, HapiDirectory, HapiEntry, HapiFile};
pub use util::{checksum, checksum_of, find_nul, le32_at, lemma_checksum_byte_flip,
    lossy_of, parse_c_string, utf8_lossy};
