pub mod asset_loaders;
